//! JSON values as the gateway reads and writes them.  A number keeps the text
//! it was written with; an object holds its members as a list, written out in
//! that list's order.  An object parsed by `serde_json` lists its members
//! sorted by name, as `serde_json`'s map keeps them.
use vstd::prelude::*;

use crate::strmap::str_eq;
use crate::text::{all_digits, digits_value, digit_value, is_digit, str_chars, string_from_chars};

verus! {

/// A JSON value.
#[derive(Debug)]
pub enum JsonValue {
    Null,
    Bool(bool),
    Number(String),
    Str(String),
    Array(Vec<JsonValue>),
    Object(Vec<(String, JsonValue)>),
}

/// The lowercase hexadecimal digit of `n`, for `n` below 16.
pub open spec fn hex_digit(n: int) -> char {
    if n < 10 {
        (48 + n) as char
    } else {
        (87 + n) as char
    }
}

/// How `serde_json` writes one character inside a string literal: `"` and
/// `\` after a backslash; backspace, form feed, line feed, carriage return
/// and tab as `\b`, `\f`, `\n`, `\r`, `\t`; every other character below
/// U+0020 as `\u00` and two lowercase hex digits; anything else as it is.
pub open spec fn escaped_char(c: char) -> Seq<char> {
    if c == '"' {
        seq!['\\', '"']
    } else if c == '\\' {
        seq!['\\', '\\']
    } else if c == '\u{8}' {
        seq!['\\', 'b']
    } else if c == '\u{c}' {
        seq!['\\', 'f']
    } else if c == '\n' {
        seq!['\\', 'n']
    } else if c == '\r' {
        seq!['\\', 'r']
    } else if c == '\t' {
        seq!['\\', 't']
    } else if (c as int) < 32 {
        seq!['\\', 'u', '0', '0', hex_digit((c as int) / 16), hex_digit((c as int) % 16)]
    } else {
        seq![c]
    }
}

/// The characters of a string, each as `escaped_char` writes it.
pub open spec fn escaped(s: Seq<char>) -> Seq<char>
    decreases s.len(),
{
    if s.len() == 0 {
        Seq::empty()
    } else {
        escaped(s.drop_last()) + escaped_char(s.last())
    }
}

/// The JSON string literal that `serde_json` writes for `s`: a quote, the
/// escaped characters, a quote.
#[verifier::opaque]
pub open spec fn json_quoted(s: Seq<char>) -> Seq<char> {
    seq!['"'] + escaped(s) + seq!['"']
}

/// Writes a string as a JSON string literal.
/// Calls `serde_json::to_string` on the string slice; the contract claims
/// the escaping that its string formatter applies (`json_quoted`).  Writing
/// a string slice does not fail, so the error arm is never taken.
#[verifier::external_body]
pub(crate) fn quote_json(s: &str) -> (res: String)
    ensures
        res@ == json_quoted(s@),
{
    serde_json::to_string(s).unwrap_or_default()
}

/// The value type of `serde_json`, carried from its parser into the
/// conversion below.
#[verifier::external_type_specification]
#[verifier::external_body]
pub struct ExSerdeJsonValue(serde_json::Value);

/// What parsing a text as JSON gives, as `serde_json::from_str` into its
/// value type answers it: the value (numbers kept as the text that
/// `serde_json` writes for them), or the text of the error.
pub uninterp spec fn json_from_text(text: Seq<char>) -> Result<JsonValue, Seq<char>>;

/// What parsing bytes as JSON gives, as `serde_json::from_slice` into its
/// value type answers it: the value, or the text of the error.
pub uninterp spec fn json_from_bytes(bytes: Seq<u8>) -> Result<JsonValue, Seq<char>>;

/// A parse outcome with its error taken as characters.
pub open spec fn outcome_view(r: Result<JsonValue, String>) -> Result<JsonValue, Seq<char>> {
    match r {
        Ok(v) => Ok(v),
        Err(e) => Err(e@),
    }
}

/// Parse outcomes with their errors taken as characters.
pub open spec fn outcome_views(rs: Seq<Result<JsonValue, String>>) -> Seq<Result<JsonValue, Seq<char>>> {
    rs.map_values(|r: Result<JsonValue, String>| outcome_view(r))
}

/// Turns a value of `serde_json` into the library's value, variant for
/// variant: a number becomes the text `serde_json` writes for it, an array
/// keeps its order, and an object lists its members in the order that
/// `serde_json`'s map yields them, sorted by name.  Nothing is claimed of it; `parse_json_text`
/// and `parse_json` name what the parse and this conversion give together.
#[verifier::external_body]
fn from_serde(value: serde_json::Value) -> JsonValue {
    match value {
        serde_json::Value::Null => JsonValue::Null,
        serde_json::Value::Bool(b) => JsonValue::Bool(b),
        serde_json::Value::Number(n) => JsonValue::Number(n.to_string()),
        serde_json::Value::String(s) => JsonValue::Str(s),
        serde_json::Value::Array(items) => JsonValue::Array(items.into_iter().map(from_serde).collect()),
        serde_json::Value::Object(members) => JsonValue::Object(
            members.into_iter().map(|(name, member)| (name, from_serde(member))).collect(),
        ),
    }
}

/// Parses a text as JSON.
/// Calls `serde_json::from_str` into `serde_json::Value` and converts the
/// value; the contract names the outcome, error text included.
#[verifier::external_body]
pub(crate) fn parse_json_text(text: &str) -> (res: Result<JsonValue, String>)
    ensures
        outcome_view(res) == json_from_text(text@),
{
    serde_json::from_str::<serde_json::Value>(text).map(from_serde).map_err(|error| error.to_string())
}

/// Parses bytes as JSON.
/// Calls `serde_json::from_slice` into `serde_json::Value` and converts the
/// value; the contract names the outcome, error text included.
#[verifier::external_body]
pub(crate) fn parse_json(bytes: &[u8]) -> (res: Result<JsonValue, String>)
    ensures
        outcome_view(res) == json_from_bytes(bytes@),
{
    serde_json::from_slice::<serde_json::Value>(bytes).map(from_serde).map_err(|error| error.to_string())
}

/// The compact JSON text of a value, as `serde_json` writes it: no
/// whitespace, members in the order the object lists them, numbers as
/// written.
pub open spec fn json_text(v: JsonValue) -> Seq<char>
    decreases v,
{
    match v {
        JsonValue::Null => seq!['n', 'u', 'l', 'l'],
        JsonValue::Bool(b) => if b {
            seq!['t', 'r', 'u', 'e']
        } else {
            seq!['f', 'a', 'l', 's', 'e']
        },
        JsonValue::Number(t) => t@,
        JsonValue::Str(s) => json_quoted(s@),
        JsonValue::Array(items) => seq!['['] + items_text(items@) + seq![']'],
        JsonValue::Object(members) => seq!['{'] + members_text(members@) + seq!['}'],
    }
}

/// The texts of `items`, separated by commas.
pub open spec fn items_text(items: Seq<JsonValue>) -> Seq<char>
    decreases items,
{
    if items.len() == 0 {
        Seq::empty()
    } else if items.len() == 1 {
        json_text(items[0])
    } else {
        items_text(items.subrange(0, items.len() - 1)) + seq![','] + json_text(
            items[items.len() - 1],
        )
    }
}

/// The texts of `members`, separated by commas.
pub open spec fn members_text(members: Seq<(String, JsonValue)>) -> Seq<char>
    decreases members,
{
    if members.len() == 0 {
        Seq::empty()
    } else if members.len() == 1 {
        json_quoted(members[0].0@) + seq![':'] + json_text(members[0].1)
    } else {
        members_text(members.subrange(0, members.len() - 1)) + seq![','] + json_quoted(
            members[members.len() - 1].0@,
        ) + seq![':'] + json_text(members[members.len() - 1].1)
    }
}


/// Appends the characters of a string to `out`.
pub(crate) fn push_text(out: &mut Vec<char>, s: &str)
    ensures
        final(out)@ == old(out)@ + s@,
{
    let chars = str_chars(s);
    let ghost start = out@;
    let mut i: usize = 0;
    while i < chars.len()
        invariant
            i <= chars@.len(),
            chars@ == s@,
            out@ == start + chars@.subrange(0, i as int),
        decreases chars@.len() - i,
    {
        out.push(chars[i]);
        i = i + 1;
        proof {
            assert(out@ =~= start + chars@.subrange(0, i as int));
        }
    }
    proof {
        assert(chars@.subrange(0, chars@.len() as int) =~= chars@);
    }
}

/// Appends the compact JSON text of `v` to `out`.
pub fn write_json(v: &JsonValue, out: &mut Vec<char>)
    ensures
        final(out)@ == old(out)@ + json_text(*v),
    decreases v,
{
    let ghost start = out@;
    match v {
        JsonValue::Null => {
            out.push('n');
            out.push('u');
            out.push('l');
            out.push('l');
            proof {
                assert(out@ =~= start + json_text(*v));
            }
        },
        JsonValue::Bool(b) => {
            if *b {
                out.push('t');
                out.push('r');
                out.push('u');
                out.push('e');
            } else {
                out.push('f');
                out.push('a');
                out.push('l');
                out.push('s');
                out.push('e');
            }
            proof {
                assert(out@ =~= start + json_text(*v));
            }
        },
        JsonValue::Number(t) => {
            push_text(out, t.as_str());
        },
        JsonValue::Str(s) => {
            let q = quote_json(s.as_str());
            push_text(out, q.as_str());
        },
        JsonValue::Array(items) => {
            out.push('[');
            let mut i: usize = 0;
            while i < items.len()
                invariant
                    i <= items@.len(),
                    out@ == start + seq!['['] + items_text(items@.subrange(0, i as int)),
                    *v == JsonValue::Array(*items),
                decreases items@.len() - i,
            {
                let ghost before = out@;
                if i > 0 {
                    out.push(',');
                }
                proof {
                    assert(decreases_to!(*v => (*v)->Array_0));
                    assert(decreases_to!(*items => items@));
                    assert(decreases_to!(items@ => items@[i as int]));
                }
                write_json(&items[i], out);
                proof {
                    let t = items@.subrange(0, i + 1);
                    assert(t.subrange(0, i as int) =~= items@.subrange(0, i as int));
                    assert(t[i as int] == items@[i as int]);
                    if i == 0 {
                        assert(items_text(items@.subrange(0, 0)) =~= Seq::<char>::empty());
                        assert(out@ =~= start + seq!['['] + items_text(t));
                    } else {
                        assert(out@ =~= start + seq!['['] + items_text(t));
                    }
                }
                i = i + 1;
            }
            out.push(']');
            proof {
                assert(items@.subrange(0, items@.len() as int) =~= items@);
                assert(out@ =~= start + json_text(*v));
            }
        },
        JsonValue::Object(members) => {
            out.push('{');
            let mut i: usize = 0;
            while i < members.len()
                invariant
                    i <= members@.len(),
                    out@ == start + seq!['{'] + members_text(members@.subrange(0, i as int)),
                    *v == JsonValue::Object(*members),
                decreases members@.len() - i,
            {
                if i > 0 {
                    out.push(',');
                }
                let q = quote_json(members[i].0.as_str());
                push_text(out, q.as_str());
                out.push(':');
                proof {
                    assert(decreases_to!(*v => (*v)->Object_0));
                    assert(decreases_to!(*members => members@));
                    assert(decreases_to!(members@ => members@[i as int]));
                    assert(decreases_to!(members@[i as int] => members@[i as int].1));
                }
                write_json(&members[i].1, out);
                proof {
                    let t = members@.subrange(0, i + 1);
                    assert(t.subrange(0, i as int) =~= members@.subrange(0, i as int));
                    assert(t[i as int] == members@[i as int]);
                    if i == 0 {
                        assert(members_text(members@.subrange(0, 0)) =~= Seq::<char>::empty());
                        assert(out@ =~= start + seq!['{'] + members_text(t));
                    } else {
                        assert(out@ =~= start + seq!['{'] + members_text(t));
                    }
                }
                i = i + 1;
            }
            out.push('}');
            proof {
                assert(members@.subrange(0, members@.len() as int) =~= members@);
                assert(out@ =~= start + json_text(*v));
            }
        },
    }
}

/// A copy of a value: the same text, member for member.
pub fn copy_json(v: &JsonValue) -> (r: JsonValue)
    ensures
        json_text(r) == json_text(*v),
    decreases v,
{
    match v {
        JsonValue::Null => JsonValue::Null,
        JsonValue::Bool(b) => JsonValue::Bool(*b),
        JsonValue::Number(t) => JsonValue::Number(t.clone()),
        JsonValue::Str(s) => JsonValue::Str(s.clone()),
        JsonValue::Array(items) => {
            let mut out: Vec<JsonValue> = Vec::new();
            let mut i: usize = 0;
            proof {
                assert(items_text(out@) =~= items_text(items@.subrange(0, 0)));
            }
            while i < items.len()
                invariant
                    i <= items@.len(),
                    out@.len() == i,
                    items_text(out@) == items_text(items@.subrange(0, i as int)),
                    *v == JsonValue::Array(*items),
                decreases items@.len() - i,
            {
                proof {
                    assert(decreases_to!(*v => (*v)->Array_0));
                    assert(decreases_to!(*items => items@));
                    assert(decreases_to!(items@ => items@[i as int]));
                }
                let c = copy_json(&items[i]);
                let ghost before = out@;
                out.push(c);
                proof {
                    let t = items@.subrange(0, i + 1);
                    assert(t.subrange(0, i as int) =~= items@.subrange(0, i as int));
                    assert(out@.subrange(0, i as int) =~= before);
                    assert(t[i as int] == items@[i as int]);
                    if i > 0 {
                        assert(out@.subrange(0, out@.len() - 1) =~= before);
                    }
                    assert(items_text(out@) == items_text(t));
                }
                i = i + 1;
            }
            proof {
                assert(items@.subrange(0, items@.len() as int) =~= items@);
            }
            JsonValue::Array(out)
        },
        JsonValue::Object(members) => {
            let mut out: Vec<(String, JsonValue)> = Vec::new();
            let mut i: usize = 0;
            proof {
                assert(members_text(out@) =~= members_text(members@.subrange(0, 0)));
            }
            while i < members.len()
                invariant
                    i <= members@.len(),
                    out@.len() == i,
                    members_text(out@) == members_text(members@.subrange(0, i as int)),
                    *v == JsonValue::Object(*members),
                decreases members@.len() - i,
            {
                proof {
                    assert(decreases_to!(*v => (*v)->Object_0));
                    assert(decreases_to!(*members => members@));
                    assert(decreases_to!(members@ => members@[i as int]));
                    assert(decreases_to!(members@[i as int] => members@[i as int].1));
                }
                let c = copy_json(&members[i].1);
                let name = members[i].0.clone();
                let ghost before = out@;
                out.push((name, c));
                proof {
                    let t = members@.subrange(0, i + 1);
                    assert(t.subrange(0, i as int) =~= members@.subrange(0, i as int));
                    assert(t[i as int] == members@[i as int]);
                    if i > 0 {
                        assert(out@.subrange(0, out@.len() - 1) =~= before);
                    }
                    assert(members_text(out@) == members_text(t));
                }
                i = i + 1;
            }
            proof {
                assert(members@.subrange(0, members@.len() as int) =~= members@);
            }
            JsonValue::Object(out)
        },
    }
}

/// The compact JSON text of `v`.
pub fn to_json_text(v: &JsonValue) -> (t: String)
    ensures
        t@ == json_text(*v),
{
    let mut out: Vec<char> = Vec::new();
    write_json(v, &mut out);
    proof {
        assert(out@ =~= json_text(*v));
    }
    string_from_chars(&out)
}

/// The value of the first member named `name`.
pub open spec fn member_value(members: Seq<(String, JsonValue)>, name: Seq<char>) -> Option<
    JsonValue,
>
    decreases members.len(),
{
    if members.len() == 0 {
        None
    } else if members[0].0@ == name {
        Some(members[0].1)
    } else {
        member_value(members.drop_first(), name)
    }
}

/// The member `name` of an object; nothing for other values.
pub open spec fn json_get(v: JsonValue, name: Seq<char>) -> Option<JsonValue> {
    match v {
        JsonValue::Object(members) => member_value(members@, name),
        _ => None,
    }
}

/// The text of a string value.
pub open spec fn json_str(v: JsonValue) -> Option<Seq<char>> {
    match v {
        JsonValue::Str(s) => Some(s@),
        _ => None,
    }
}

/// The value of a number written as plain decimal digits that fits in 64
/// bits; negative, fractional and larger numbers have none.
pub open spec fn number_u64(t: Seq<char>) -> Option<u64> {
    if t.len() > 0 && all_digits(t) && digits_value(t) <= u64::MAX {
        Some(digits_value(t) as u64)
    } else {
        None
    }
}

/// The unsigned value of a number.
pub open spec fn json_u64(v: JsonValue) -> Option<u64> {
    match v {
        JsonValue::Number(t) => number_u64(t@),
        _ => None,
    }
}

/// The element at `i` of an array.
pub open spec fn json_at(v: JsonValue, i: int) -> Option<JsonValue> {
    match v {
        JsonValue::Array(items) => if 0 <= i < items@.len() {
            Some(items@[i])
        } else {
            None
        },
        _ => None,
    }
}

/// A value of a prefix of digits is at most the value of all of them.
proof fn lemma_digits_prefix_le(t: Seq<char>, k: int)
    requires
        all_digits(t),
        0 <= k <= t.len(),
    ensures
        digits_value(t.take(k)) <= digits_value(t),
    decreases t.len(),
{
    if k < t.len() {
        let d = t.drop_last();
        assert(all_digits(d)) by {
            assert forall|i: int| 0 <= i < d.len() implies is_digit(#[trigger] d[i]) by {
                assert(d[i] == t[i]);
            }
        }
        lemma_digits_prefix_le(d, k);
        assert(d.take(k) =~= t.take(k));
    } else {
        assert(t.take(k) =~= t);
    }
}

/// A count written in decimal reads back as the same count.
pub proof fn lemma_count_reads_back(n: u64)
    ensures
        number_u64(crate::text::decimal(n as nat)) == Some(n),
{
    crate::text::lemma_decimal_value(n as nat);
}

impl JsonValue {
    /// The member `name` of an object.
    pub fn get(&self, name: &str) -> (r: Option<&JsonValue>)
        ensures
            match r {
                Some(x) => json_get(*self, name@) == Some(*x),
                None => json_get(*self, name@) is None,
            },
    {
        match self {
            JsonValue::Object(members) => {
                let mut i: usize = 0;
                proof {
                    assert(members@.subrange(0, members@.len() as int) =~= members@);
                }
                while i < members.len()
                    invariant
                        i <= members@.len(),
                        *self == JsonValue::Object(*members),
                        member_value(members@, name@) == member_value(
                            members@.subrange(i as int, members@.len() as int),
                            name@,
                        ),
                    decreases members@.len() - i,
                {
                    let ghost rest = members@.subrange(i as int, members@.len() as int);
                    if str_eq(members[i].0.as_str(), name) {
                        proof {
                            assert(rest[0] == members@[i as int]);
                        }
                        return Some(&members[i].1);
                    }
                    proof {
                        assert(rest[0] == members@[i as int]);
                        assert(rest.drop_first() =~= members@.subrange(
                            i + 1,
                            members@.len() as int,
                        ));
                    }
                    i = i + 1;
                }
                None
            },
            _ => None,
        }
    }

    /// The text of a string value.
    pub fn as_str(&self) -> (r: Option<&str>)
        ensures
            match r {
                Some(s) => json_str(*self) == Some(s@),
                None => json_str(*self) is None,
            },
    {
        match self {
            JsonValue::Str(s) => Some(s.as_str()),
            _ => None,
        }
    }

    /// The unsigned value of a number.
    pub fn as_u64(&self) -> (r: Option<u64>)
        ensures
            r == json_u64(*self),
    {
        let text = match self {
            JsonValue::Number(t) => t,
            _ => {
                return None;
            },
        };
        let chars = str_chars(text.as_str());
        if chars.len() == 0 {
            return None;
        }
        let mut acc: u64 = 0;
        let mut i: usize = 0;
        proof {
            assert(chars@.take(0) =~= Seq::<char>::empty());
        }
        while i < chars.len()
            invariant
                0 < chars@.len(),
                *self == JsonValue::Number(*text),
                chars@ == text@,
                i <= chars@.len(),
                all_digits(chars@.take(i as int)),
                acc == digits_value(chars@.take(i as int)),
            decreases chars@.len() - i,
        {
            let c = chars[i];
            if !(c >= '0' && c <= '9') {
                proof {
                    assert(!is_digit(chars@[i as int]));
                }
                return None;
            }
            let d: u64 = (c as u32 - 48) as u64;
            let ghost next = chars@.take(i + 1);
            proof {
                assert(next.drop_last() =~= chars@.take(i as int));
                assert(next.last() == c);
                assert(all_digits(next)) by {
                    assert forall|j: int| 0 <= j < next.len() implies is_digit(#[trigger] next[j]) by {
                        if j < i {
                            assert(next[j] == chars@.take(i as int)[j]);
                        }
                    }
                }
            }
            if acc > (u64::MAX - d) / 10 {
                proof {
                    assert(digits_value(next) == acc * 10 + d);
                    assert(digits_value(next) > u64::MAX);
                    if all_digits(chars@) {
                        lemma_digits_prefix_le(chars@, i + 1);
                    }
                }
                return None;
            }
            acc = acc * 10 + d;
            i = i + 1;
        }
        proof {
            assert(chars@.take(chars@.len() as int) =~= chars@);
        }
        Some(acc)
    }

    /// The element at `i` of an array.
    pub fn at(&self, i: usize) -> (r: Option<&JsonValue>)
        ensures
            match r {
                Some(x) => json_at(*self, i as int) == Some(*x),
                None => json_at(*self, i as int) is None,
            },
    {
        match self {
            JsonValue::Array(items) => if i < items.len() {
                Some(&items[i])
            } else {
                None
            },
            _ => None,
        }
    }
}

} // verus!

//! The counter store: a Redis endpoint spoken to over RESP, and per-process
//! running totals.  The library builds the commands and reads the replies;
//! the caller moves the bytes.
use vstd::prelude::*;
use vstd::string::StringSliceAdditionalSpecFns;
use vstd::utf8::{
    char_u32_cast, decode_utf8, encode_utf8, is_ascii_chars, is_ascii_chars_encode_utf8,
    valid_utf8,
};

use crate::strmap::StrMap;
use crate::text::{
    concat, decimal, digit_char, find_char, is_digit, lemma_decimal_value, parse_i64, parse_i64_spec, parse_u16, parse_u16_spec,
    i64_parse_error_text, rfind_char, slice_prefix, slice_range, starts_with, str_chars,
    string_from_chars, to_owned_string, u64_to_decimal,
};

verus! {

/// Where the Redis server listens.
#[derive(Debug, Clone)]
pub struct RedisEndpoint {
    pub host: String,
    pub port: u16,
}

/// What can go wrong when talking to Redis.
#[derive(Debug)]
pub enum RedisError {
    InvalidUrl(String),
    Unavailable(String),
    Timeout,
    Io(String),
    Protocol(String),
}

/// A handle on one Redis server; a connection is opened per command.
#[derive(Debug, Clone)]
pub struct RedisPool {
    pub endpoint: RedisEndpoint,
    pub connect_timeout_ms: u64,
}

/// The scheme that a Redis URL starts with.
pub open spec fn redis_scheme() -> Seq<char> {
    seq!['r', 'e', 'd', 'i', 's', ':', '/', '/']
}

/// The part of `s` before the first `c`, or all of `s` when there is none.
pub open spec fn before_first(s: Seq<char>, c: char) -> Seq<char> {
    match s.index_of_first(c) {
        Some(i) => s.take(i),
        None => s,
    }
}

/// The part of `s` after the last `c`, or all of `s` when there is none.
pub open spec fn after_last(s: Seq<char>, c: char) -> Seq<char> {
    match s.index_of_last(c) {
        Some(i) => s.skip(i + 1),
        None => s,
    }
}

/// The host and port that a Redis URL names: after `redis://`, up to the
/// first `/`, after the last `@` (credentials are dropped), a host that is not
/// empty, a `:` (the last one) and a port number.
pub open spec fn redis_url_endpoint(url: Seq<char>) -> Option<(Seq<char>, u16)> {
    if url.len() < 8 || url.take(8) != redis_scheme() {
        None
    } else {
        let authority = after_last(before_first(url.skip(8), '/'), '@');
        match authority.index_of_last(':') {
            None => None,
            Some(i) => match parse_u16_spec(authority.skip(i + 1)) {
                None => None,
                Some(port) => if i == 0 {
                    None
                } else {
                    Some((authority.take(i), port))
                },
            },
        }
    }
}

proof fn lemma_first_index(s: Seq<char>, c: char, i: int)
    requires
        0 <= i < s.len(),
        s[i] == c,
        !s.subrange(0, i).contains(c),
    ensures
        s.index_of_first(c) == Some(i),
{
    s.index_of_first_ensures(c);
    let j = s.index_of_first(c).unwrap();
    if j < i {
        assert(s.subrange(0, i)[j] == c);
    }
}

proof fn lemma_last_index(s: Seq<char>, c: char, i: int)
    requires
        0 <= i < s.len(),
        s[i] == c,
        !s.subrange(i + 1, s.len() as int).contains(c),
    ensures
        s.index_of_last(c) == Some(i),
{
    s.index_of_last_ensures(c);
    let j = s.index_of_last(c).unwrap();
    if j > i {
        assert(s.subrange(i + 1, s.len() as int)[j - i - 1] == c);
    }
}

proof fn lemma_no_index(s: Seq<char>, c: char)
    requires
        !s.contains(c),
    ensures
        s.index_of_first(c) is None,
        s.index_of_last(c) is None,
{
    s.index_of_first_ensures(c);
    s.index_of_last_ensures(c);
}

impl RedisEndpoint {
    /// Reads the host and port out of a `redis://` URL.
    pub fn parse(url: &str) -> (res: Result<RedisEndpoint, RedisError>)
        ensures
            match redis_url_endpoint(url@) {
                None => res matches Err(RedisError::InvalidUrl(u)) && u@ == url@,
                Some((host, port)) => res matches Ok(ep) && ep.host@ == host && ep.port == port,
            },
    {
        let chars = str_chars(url);
        let scheme = str_chars("redis://");
        proof {
            reveal_strlit("redis://");
            assert(scheme@ =~= redis_scheme());
        }
        if !starts_with(&chars, &scheme) {
            proof {
                if chars@.len() >= 8 {
                    assert(chars@.take(8) =~= chars@.subrange(0, 8));
                }
            }
            return Err(RedisError::InvalidUrl(to_owned_string(url)));
        }
        let rest = slice_range(&chars, 8, chars.len());
        proof {
            assert(chars@.take(8) =~= chars@.subrange(0, 8));
            assert(rest@ =~= url@.skip(8));
        }
        let path_start = find_char(&rest, '/');
        let before_path = match path_start {
            Some(i) => slice_prefix(&rest, i),
            None => slice_range(&rest, 0, rest.len()),
        };
        proof {
            match path_start {
                Some(i) => {
                    lemma_first_index(rest@, '/', i as int);
                },
                None => {
                    lemma_no_index(rest@, '/');
                    assert(rest@.subrange(0, rest@.len() as int) =~= rest@);
                },
            }
            assert(before_path@ =~= before_first(rest@, '/'));
        }
        let at = rfind_char(&before_path, '@');
        let authority = match at {
            Some(i) => slice_range(&before_path, i + 1, before_path.len()),
            None => slice_range(&before_path, 0, before_path.len()),
        };
        proof {
            match at {
                Some(i) => {
                    lemma_last_index(before_path@, '@', i as int);
                },
                None => {
                    lemma_no_index(before_path@, '@');
                    assert(before_path@.subrange(0, before_path@.len() as int) =~= before_path@);
                },
            }
            assert(authority@ =~= after_last(before_path@, '@'));
        }
        let colon = match rfind_char(&authority, ':') {
            Some(i) => i,
            None => {
                proof {
                    lemma_no_index(authority@, ':');
                }
                return Err(RedisError::InvalidUrl(to_owned_string(url)));
            },
        };
        proof {
            lemma_last_index(authority@, ':', colon as int);
        }
        let port_chars = slice_range(&authority, colon + 1, authority.len());
        let port_text = string_from_chars(&port_chars);
        proof {
            assert(port_text@ =~= authority@.skip(colon + 1));
        }
        let port = match parse_u16(port_text.as_str()) {
            Some(p) => p,
            None => {
                return Err(RedisError::InvalidUrl(to_owned_string(url)));
            },
        };
        if colon == 0 {
            return Err(RedisError::InvalidUrl(to_owned_string(url)));
        }
        let host_chars = slice_prefix(&authority, colon);
        let host = string_from_chars(&host_chars);
        proof {
            assert(host@ =~= authority@.take(colon as int));
        }
        Ok(RedisEndpoint { host, port })
    }
}

impl RedisPool {
    /// A pool for the server that `url` names, with a connect timeout of
    /// 250 milliseconds.
    pub fn from_url(url: &str) -> (res: Result<RedisPool, RedisError>)
        ensures
            match redis_url_endpoint(url@) {
                None => res matches Err(RedisError::InvalidUrl(u)) && u@ == url@,
                Some((host, port)) => res matches Ok(pool) && pool.endpoint.host@ == host
                    && pool.endpoint.port == port && pool.connect_timeout_ms == 250,
            },
    {
        match RedisEndpoint::parse(url) {
            Ok(endpoint) => Ok(RedisPool { endpoint, connect_timeout_ms: 250 }),
            Err(e) => Err(e),
        }
    }

    /// The `host:port` address to connect to.
    pub fn address(&self) -> (a: String)
        ensures
            a@ == self.endpoint.host@ + seq![':'] + decimal(self.endpoint.port as nat),
    {
        let mut text = str_chars(self.endpoint.host.as_str());
        text.push(':');
        let digits = u64_to_decimal(self.endpoint.port as u64);
        let mut i: usize = 0;
        let ghost start = text@;
        while i < digits.len()
            invariant
                i <= digits@.len(),
                text@ == start + digits@.subrange(0, i as int),
            decreases digits@.len() - i,
        {
            text.push(digits[i]);
            i = i + 1;
            proof {
                assert(text@ =~= start + digits@.subrange(0, i as int));
            }
        }
        proof {
            assert(digits@.subrange(0, digits@.len() as int) =~= digits@);
        }
        string_from_chars(&text)
    }
}

impl RedisError {
    /// The error as a line of text.
    pub fn describe(&self) -> (t: String)
        ensures
            match self {
                RedisError::InvalidUrl(u) => t@ == "invalid redis url: "@ + u@,
                RedisError::Unavailable(m) => t@ == "redis unavailable: "@ + m@,
                RedisError::Timeout => t@ == "redis timeout"@,
                RedisError::Io(m) => t@ == "redis io error: "@ + m@,
                RedisError::Protocol(m) => t@ == "redis protocol error: "@ + m@,
            },
    {
        match self {
            RedisError::InvalidUrl(u) => concat("invalid redis url: ", u.as_str()),
            RedisError::Unavailable(m) => concat("redis unavailable: ", m.as_str()),
            RedisError::Timeout => to_owned_string("redis timeout"),
            RedisError::Io(m) => concat("redis io error: ", m.as_str()),
            RedisError::Protocol(m) => concat("redis protocol error: ", m.as_str()),
        }
    }
}

/// The ASCII decimal spelling of `n`, as bytes.
pub open spec fn decimal_bytes(n: nat) -> Seq<u8>
    decreases n,
{
    if n < 10 {
        seq![(n + 48) as u8]
    } else {
        decimal_bytes(n / 10).push((n % 10 + 48) as u8)
    }
}

/// Carriage return and line feed.
pub open spec fn crlf() -> Seq<u8> {
    seq![13u8, 10u8]
}

/// One RESP bulk string: `$`, the length, CRLF, the bytes, CRLF.
pub open spec fn resp_bulk(p: Seq<u8>) -> Seq<u8> {
    seq![36u8] + decimal_bytes(p.len()) + crlf() + p + crlf()
}

/// The bulk strings of `parts`, one after the other.
pub open spec fn resp_bulks(parts: Seq<Seq<u8>>) -> Seq<u8>
    decreases parts.len(),
{
    if parts.len() == 0 {
        Seq::empty()
    } else {
        resp_bulks(parts.drop_last()) + resp_bulk(parts.last())
    }
}

/// A RESP command: `*`, the number of parts, CRLF, then each part as a bulk
/// string.
pub open spec fn resp_command(parts: Seq<Seq<u8>>) -> Seq<u8> {
    seq![42u8] + decimal_bytes(parts.len()) + crlf() + resp_bulks(parts)
}

/// The UTF-8 bytes of each string.
pub open spec fn parts_bytes(parts: Seq<&str>) -> Seq<Seq<u8>> {
    parts.map_values(|p: &str| p.spec_bytes())
}

/// The ASCII decimal spelling of `n`.
fn u64_decimal_bytes(n: u64) -> (res: Vec<u8>)
    ensures
        res@ == decimal_bytes(n as nat),
    decreases n,
{
    if n < 10 {
        let mut v = Vec::new();
        v.push((n + 48) as u8);
        proof {
            assert(v@ =~= seq![(n + 48) as u8]);
        }
        v
    } else {
        let mut v = u64_decimal_bytes(n / 10);
        v.push((n % 10 + 48) as u8);
        v
    }
}

/// Appends the bytes of `b` to `a`.
fn append_bytes(a: &mut Vec<u8>, b: &[u8])
    ensures
        final(a)@ == old(a)@ + b@,
{
    let ghost start = a@;
    let mut i: usize = 0;
    while i < b.len()
        invariant
            i <= b@.len(),
            a@ == start + b@.subrange(0, i as int),
        decreases b@.len() - i,
    {
        a.push(b[i]);
        i = i + 1;
        proof {
            assert(a@ =~= start + b@.subrange(0, i as int));
        }
    }
    proof {
        assert(b@.subrange(0, b@.len() as int) =~= b@);
    }
}

/// Encodes a command as a RESP array of bulk strings.
pub fn encode_command(parts: &[&str]) -> (res: Vec<u8>)
    ensures
        res@ == resp_command(parts_bytes(parts@)),
{
    let ghost all = parts_bytes(parts@);
    let mut buffer: Vec<u8> = Vec::new();
    buffer.push(42u8);
    let count = u64_decimal_bytes(parts.len() as u64);
    append_bytes(&mut buffer, &count);
    buffer.push(13u8);
    buffer.push(10u8);
    let ghost header = buffer@;
    proof {
        assert(header =~= seq![42u8] + decimal_bytes(parts@.len()) + crlf());
        assert(all.take(0) =~= Seq::<Seq<u8>>::empty());
        assert(buffer@ =~= header + resp_bulks(all.take(0)));
    }
    let mut i: usize = 0;
    while i < parts.len()
        invariant
            i <= parts@.len(),
            all == parts_bytes(parts@),
            all.len() == parts@.len(),
            buffer@ == header + resp_bulks(all.take(i as int)),
        decreases parts@.len() - i,
    {
        let bytes = parts[i].as_bytes();
        proof {
            assert(all[i as int] == parts@[i as int].spec_bytes());
        }
        buffer.push(36u8);
        let len = u64_decimal_bytes(bytes.len() as u64);
        append_bytes(&mut buffer, &len);
        buffer.push(13u8);
        buffer.push(10u8);
        append_bytes(&mut buffer, bytes);
        buffer.push(13u8);
        buffer.push(10u8);
        proof {
            let t = all.take(i + 1);
            assert(t.drop_last() =~= all.take(i as int));
            assert(t.last() == all[i as int]);
            assert(buffer@ =~= header + resp_bulks(all.take(i as int)) + resp_bulk(
                all[i as int],
            ));
        }
        i = i + 1;
    }
    proof {
        assert(all.take(parts@.len() as int) =~= all);
    }
    buffer
}

/// The text of the error that `std::str::from_utf8` reports on `bytes`.
pub uninterp spec fn utf8_error_text(bytes: Seq<u8>) -> Seq<char>;

/// Decodes UTF-8.
/// Calls `std::str::from_utf8`; the contract claims that it succeeds exactly on
/// the byte sequences that vstd's `valid_utf8` describes, with the decoded
/// characters, and names the text of the error otherwise.
#[verifier::external_body]
pub(crate) fn str_from_utf8(raw: &[u8]) -> (res: Result<String, String>)
    ensures
        match res {
            Ok(s) => valid_utf8(raw@) && s@ == decode_utf8(raw@),
            Err(e) => !valid_utf8(raw@) && e@ == utf8_error_text(raw@),
        },
{
    std::str::from_utf8(raw).map(|s| s.to_owned()).map_err(|error| error.to_string())
}

/// The text that `String::from_utf8_lossy` makes of `bytes`.
pub uninterp spec fn lossy_text(bytes: Seq<u8>) -> Seq<char>;

/// Decodes UTF-8, replacing what is not valid.
/// Calls `String::from_utf8_lossy`; the contract names the result, and claims
/// that valid UTF-8 is decoded unchanged.
#[verifier::external_body]
fn utf8_lossy(raw: &[u8]) -> (res: String)
    ensures
        res@ == lossy_text(raw@),
        valid_utf8(raw@) ==> res@ == decode_utf8(raw@),
{
    String::from_utf8_lossy(raw).into_owned()
}

/// What reading an integer reply body gives: the UTF-8 decoding of the
/// bytes, parsed as a signed decimal number.
pub open spec fn integer_outcome(raw: Seq<u8>, res: Result<i64, RedisError>) -> bool {
    if !valid_utf8(raw) {
        res matches Err(RedisError::Protocol(m)) && m@ == "invalid integer utf8: "@
            + utf8_error_text(raw)
    } else {
        match parse_i64_spec(decode_utf8(raw)) {
            Some(v) => res matches Ok(r) && r == v,
            None => res matches Err(RedisError::Protocol(m)) && m@ == "invalid integer response: "@
                + i64_parse_error_text(decode_utf8(raw)),
        }
    }
}

/// Reads the number in the body of an integer reply.
pub fn parse_integer(raw: &[u8]) -> (res: Result<i64, RedisError>)
    ensures
        integer_outcome(raw@, res),
{
    let text = match str_from_utf8(raw) {
        Ok(t) => t,
        Err(e) => {
            return Err(RedisError::Protocol(concat("invalid integer utf8: ", e.as_str())));
        },
    };
    match parse_i64(text.as_str()) {
        Ok(v) => Ok(v),
        Err(e) => Err(RedisError::Protocol(concat("invalid integer response: ", e.as_str()))),
    }
}

/// What one reply line gives for a command that answers with an integer: a
/// line shorter than three bytes or not ending in CRLF is truncated; `:`
/// starts an integer, `-` an error from the server; anything else is a
/// protocol error that names the first byte.
pub open spec fn reply_outcome(line: Seq<u8>, res: Result<i64, RedisError>) -> bool {
    if line.len() < 3 || line.subrange(line.len() - 2, line.len() as int) != crlf() {
        res matches Err(RedisError::Protocol(m)) && m@ == "truncated response"@
    } else {
        let body = line.subrange(1, line.len() - 2);
        if line[0] == 58u8 {
            integer_outcome(body, res)
        } else if line[0] == 45u8 {
            res matches Err(RedisError::Unavailable(m)) && m@ == lossy_text(body)
        } else {
            res matches Err(RedisError::Protocol(m)) && m@ == "unexpected response prefix: "@
                + seq![line[0] as char]
        }
    }
}

/// Reads the reply line of a command that answers with an integer.
pub fn integer_reply(line: &[u8]) -> (res: Result<i64, RedisError>)
    ensures
        reply_outcome(line@, res),
{
    let n = line.len();
    if n < 3 || line[n - 2] != 13u8 || line[n - 1] != 10u8 {
        proof {
            if n >= 3 {
                let tail = line@.subrange(n - 2, n as int);
                assert(tail[0] == line@[n - 2]);
                assert(tail[1] == line@[n - 1]);
            }
        }
        return Err(RedisError::Protocol(to_owned_string("truncated response")));
    }
    proof {
        assert(line@.subrange(n - 2, n as int) =~= crlf());
    }
    let first = line[0];
    let body = slice_bytes(line, 1, n - 2);
    if first == 58u8 {
        parse_integer(&body)
    } else if first == 45u8 {
        Err(RedisError::Unavailable(utf8_lossy(&body)))
    } else {
        let mut text = str_chars("unexpected response prefix: ");
        let ghost start = text@;
        text.push(first as char);
        proof {
            assert(text@ =~= start + seq![line@[0] as char]);
        }
        let msg = string_from_chars(&text);
        Err(RedisError::Protocol(msg))
    }
}

/// The bytes from position `a` up to `b`.
fn slice_bytes(s: &[u8], a: usize, b: usize) -> (res: Vec<u8>)
    requires
        a <= b <= s@.len(),
    ensures
        res@ == s@.subrange(a as int, b as int),
{
    let mut v = Vec::new();
    let mut i = a;
    while i < b
        invariant
            a <= i <= b,
            b <= s@.len(),
            v@ == s@.subrange(a as int, i as int),
        decreases b - i,
    {
        v.push(s[i]);
        i = i + 1;
        proof {
            assert(v@ =~= s@.subrange(a as int, i as int));
        }
    }
    v
}

/// The `INCR key` command.
pub fn incr_command(key: &str) -> (res: Vec<u8>)
    ensures
        res@ == resp_command(seq!["INCR".spec_bytes(), key.spec_bytes()]),
{
    let mut parts: Vec<&str> = Vec::new();
    parts.push("INCR");
    parts.push(key);
    proof {
        assert(parts_bytes(parts@) =~= seq!["INCR".spec_bytes(), key.spec_bytes()]);
    }
    encode_command(parts.as_slice())
}

/// The `EXPIRE key ttl` command, the time to live in seconds.
pub fn expire_command(key: &str, ttl_seconds: u64) -> (res: Vec<u8>)
    ensures
        res@ == resp_command(
            seq!["EXPIRE".spec_bytes(), key.spec_bytes(), decimal_bytes(ttl_seconds as nat)],
        ),
{
    let ttl = string_from_chars(&u64_to_decimal(ttl_seconds));
    let mut parts: Vec<&str> = Vec::new();
    parts.push("EXPIRE");
    parts.push(key);
    parts.push(ttl.as_str());
    proof {
        lemma_decimal_bytes_utf8(ttl_seconds as nat);
        assert(parts_bytes(parts@) =~= seq![
            "EXPIRE".spec_bytes(),
            key.spec_bytes(),
            decimal_bytes(ttl_seconds as nat),
        ]);
    }
    encode_command(parts.as_slice())
}

/// The `INCRBY key amount` command.
pub fn incr_by_command(key: &str, amount: u64) -> (res: Vec<u8>)
    ensures
        res@ == resp_command(
            seq!["INCRBY".spec_bytes(), key.spec_bytes(), decimal_bytes(amount as nat)],
        ),
{
    let text = string_from_chars(&u64_to_decimal(amount));
    let mut parts: Vec<&str> = Vec::new();
    parts.push("INCRBY");
    parts.push(key);
    parts.push(text.as_str());
    proof {
        lemma_decimal_bytes_utf8(amount as nat);
        assert(parts_bytes(parts@) =~= seq![
            "INCRBY".spec_bytes(),
            key.spec_bytes(),
            decimal_bytes(amount as nat),
        ]);
    }
    encode_command(parts.as_slice())
}

/// The UTF-8 bytes of a decimal spelling are its ASCII bytes.
proof fn lemma_decimal_bytes_utf8(n: nat)
    ensures
        encode_utf8(decimal(n)) == decimal_bytes(n),
{
    lemma_decimal_bytes_chars(n);
    lemma_decimal_value(n);
    let cs = decimal(n);
    assert(is_ascii_chars(cs)) by {
        assert forall|i: int| 0 <= i < cs.len() implies '\0' <= #[trigger] cs[i] <= '\u{7f}' by {
            assert(is_digit(cs[i]));
        }
    }
    is_ascii_chars_encode_utf8(cs);
    assert(encode_utf8(cs) =~= decimal_bytes(n));
}

/// The bytes of a decimal spelling are its characters, one byte each.
proof fn lemma_decimal_bytes_chars(n: nat)
    ensures
        decimal_bytes(n).len() == decimal(n).len(),
        forall|i: int|
            0 <= i < decimal(n).len() ==> #[trigger] decimal_bytes(n)[i] == decimal(n)[i] as u8,
    decreases n,
{
    let d: nat = n % 10;
    char_u32_cast(digit_char(d), (d + 48) as u32);
    if n >= 10 {
        lemma_decimal_bytes_chars(n / 10);
        assert forall|i: int| 0 <= i < decimal(n).len() implies #[trigger] decimal_bytes(n)[i]
            == decimal(n)[i] as u8 by {
            if i < decimal(n).len() - 1 {
                assert(decimal_bytes(n)[i] == decimal_bytes(n / 10)[i]);
                assert(decimal(n)[i] == decimal(n / 10)[i]);
            }
        }
    }
}

/// Whether an `INCR` that answered `value` must be followed by an `EXPIRE`:
/// only the first increment of a window sets its time to live.
pub fn expire_after_incr(value: i64) -> (res: bool)
    ensures
        res == (value == 1),
{
    value == 1
}

/// The counter value that an integer reply stands for.
pub fn counter_value(value: i64) -> (res: u64)
    ensures
        res == value as u64,
{
    value as u64
}

/// Running totals per key, kept in the process; the shared store, when there
/// is one, is written to by the caller.
#[derive(Debug)]
pub struct CounterStore {
    redis: Option<RedisPool>,
    local_totals: StrMap<u64>,
}

impl CounterStore {
    /// Well-formedness of the totals.
    pub closed spec fn wf(&self) -> bool {
        self.local_totals.wf()
    }

    /// The shared store that the totals are also written to, if any.
    pub closed spec fn shared_store(&self) -> Option<RedisPool> {
        self.redis
    }

    /// The shared store, if any.
    pub fn redis(&self) -> (r: &Option<RedisPool>)
        ensures
            *r == self.shared_store(),
    {
        &self.redis
    }

    /// The running total under `key`; zero when nothing was added.
    pub closed spec fn total(&self, key: Seq<char>) -> nat {
        if self.local_totals@.contains_key(key) {
            self.local_totals@[key] as nat
        } else {
            0
        }
    }

    /// A store with every total at zero.
    pub fn new(redis: Option<RedisPool>) -> (c: Self)
        ensures
            c.wf(),
            c.shared_store() == redis,
            forall|k: Seq<char>| c.total(k) == 0,
    {
        CounterStore { redis, local_totals: StrMap::new() }
    }

    /// The key of the per-minute counter of `prefix` for `minute_bucket`:
    /// `{prefix}:{minute_bucket}`.  Without a shared store there is no such
    /// counter.
    pub fn minute_window_key(&self, prefix: &str, minute_bucket: u64) -> (res: Result<
        String,
        RedisError,
    >)
        ensures
            match self.shared_store() {
                None => res matches Err(RedisError::Unavailable(m)) && m@
                    == "redis pool not configured"@,
                Some(_) => res matches Ok(k) && k@ == prefix@ + seq![':'] + decimal(
                    minute_bucket as nat,
                ),
            },
    {
        if self.redis.is_none() {
            return Err(RedisError::Unavailable(to_owned_string("redis pool not configured")));
        }
        let mut text = str_chars(prefix);
        text.push(':');
        let digits = u64_to_decimal(minute_bucket);
        let ghost start = text@;
        let mut i: usize = 0;
        while i < digits.len()
            invariant
                i <= digits@.len(),
                text@ == start + digits@.subrange(0, i as int),
            decreases digits@.len() - i,
        {
            text.push(digits[i]);
            i = i + 1;
            proof {
                assert(text@ =~= start + digits@.subrange(0, i as int));
            }
        }
        proof {
            assert(digits@.subrange(0, digits@.len() as int) =~= digits@);
        }
        Ok(string_from_chars(&text))
    }

    /// Adds `amount` to the total under `key` and returns the new total.
    pub fn incr_total(&mut self, key: &str, amount: u64) -> (res: u64)
        requires
            old(self).wf(),
            old(self).total(key@) + amount <= u64::MAX,
        ensures
            final(self).wf(),
            final(self).shared_store() == old(self).shared_store(),
            res == old(self).total(key@) + amount,
            final(self).total(key@) == res,
            forall|k: Seq<char>| k != key@ ==> final(self).total(k) == old(self).total(k),
    {
        let current: u64 = match self.local_totals.get(key) {
            Some(v) => *v,
            None => 0,
        };
        let next = current + amount;
        self.local_totals.insert(to_owned_string(key), next);
        next
    }

    /// The running total under `key`.
    pub fn total_for(&self, key: &str) -> (res: u64)
        requires
            self.wf(),
        ensures
            res == self.total(key@),
    {
        match self.local_totals.get(key) {
            Some(v) => *v,
            None => 0,
        }
    }
}

/// The amounts added under `key`, in a sequence of additions.
pub open spec fn added_under(adds: Seq<(Seq<char>, u64)>, key: Seq<char>) -> nat
    decreases adds.len(),
{
    if adds.len() == 0 {
        0
    } else {
        added_under(adds.drop_last(), key) + if adds.last().0 == key {
            adds.last().1 as nat
        } else {
            0
        }
    }
}

/// `after` is `before` with `amount` added under `key`, as `incr_total`
/// leaves it.
pub open spec fn added(before: CounterStore, after: CounterStore, key: Seq<char>, amount: u64) -> bool {
    &&& after.total(key) == before.total(key) + amount
    &&& forall|k: Seq<char>| k != key ==> after.total(k) == before.total(k)
}

/// Starting from a store with every total at zero, each total is the sum of
/// the amounts added under its key, whatever the order of the additions.
pub proof fn lemma_totals_are_sums(states: Seq<CounterStore>, adds: Seq<(Seq<char>, u64)>)
    requires
        states.len() == adds.len() + 1,
        forall|k: Seq<char>| states[0].total(k) == 0,
        forall|i: int|
            0 <= i < adds.len() ==> added(#[trigger] states[i], states[i + 1], adds[i].0, adds[i].1),
    ensures
        forall|k: Seq<char>| states.last().total(k) == added_under(adds, k),
    decreases adds.len(),
{
    if adds.len() > 0 {
        let n = adds.len() - 1;
        let earlier = states.drop_last();
        assert forall|i: int| 0 <= i < adds.drop_last().len() implies added(
            #[trigger] earlier[i],
            earlier[i + 1],
            adds.drop_last()[i].0,
            adds.drop_last()[i].1,
        ) by {
            assert(earlier[i] == states[i] && earlier[i + 1] == states[i + 1]);
            assert(added(states[i], states[i + 1], adds[i].0, adds[i].1));
        }
        lemma_totals_are_sums(earlier, adds.drop_last());
        assert(added(states[n], states[n + 1], adds[n].0, adds[n].1));
        assert(earlier.last() == states[n]);
        assert(states.last() == states[n + 1]);
        assert forall|k: Seq<char>| states.last().total(k) == added_under(adds, k) by {
            assert(adds.last() == adds[n]);
            assert(earlier.last().total(k) == added_under(adds.drop_last(), k));
        }
    } else {
        assert(states.last() == states[0]);
    }
}

} // verus!

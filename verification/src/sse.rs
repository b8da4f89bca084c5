//! Server-sent event bodies: frames separated by blank lines, each made of
//! `event:` and `data:` lines.
use vstd::prelude::*;
use vstd::utf8::{decode_utf8, valid_utf8};

use crate::storage::{str_from_utf8, utf8_error_text};
use crate::text::{concat, slice_range, str_chars, string_from_chars};
use crate::types::{ErrorKind, GatewayError};

verus! {

/// `s` with every CR LF pair, taken from the left, replaced by LF.
pub open spec fn unify_newlines(s: Seq<char>) -> Seq<char>
    decreases s.len(),
{
    if s.len() == 0 {
        s
    } else if s.len() >= 2 && s[0] == '\r' && s[1] == '\n' {
        seq!['\n'] + unify_newlines(s.skip(2))
    } else {
        seq![s[0]] + unify_newlines(s.skip(1))
    }
}

/// The pieces of `s` between blank-line separators (two LFs, taken from the
/// left), for the piece that starts at `start` when `i` is being looked at.
pub open spec fn frames_scan(s: Seq<char>, start: int, i: int) -> Seq<Seq<char>>
    decreases s.len() - i,
{
    if i < 0 || i + 1 >= s.len() {
        seq![s.subrange(start, s.len() as int)]
    } else if s[i] == '\n' && s[i + 1] == '\n' {
        seq![s.subrange(start, i)] + frames_scan(s, i + 2, i + 2)
    } else {
        frames_scan(s, start, i + 1)
    }
}

/// The frames of an event stream text.
pub open spec fn frames_of(s: Seq<char>) -> Seq<Seq<char>> {
    frames_scan(s, 0, 0)
}

/// A line without the CR that ended it.
pub open spec fn drop_cr(l: Seq<char>) -> Seq<char> {
    if l.len() > 0 && l.last() == '\r' {
        l.drop_last()
    } else {
        l
    }
}

/// The lines of `f` as `str::lines` gives them, for the line that starts at
/// `start` when `i` is being looked at: an LF ends a line and takes a CR
/// before it along; a last line without LF is kept as it is; nothing follows
/// a final LF.
pub open spec fn lines_scan(f: Seq<char>, start: int, i: int) -> Seq<Seq<char>>
    decreases f.len() - i,
{
    if i < 0 || i >= f.len() {
        if 0 <= start < f.len() {
            seq![f.subrange(start, f.len() as int)]
        } else {
            Seq::empty()
        }
    } else if f[i] == '\n' {
        seq![drop_cr(f.subrange(start, i))] + lines_scan(f, i + 1, i + 1)
    } else {
        lines_scan(f, start, i + 1)
    }
}

/// The lines of a frame.
pub open spec fn lines_of(f: Seq<char>) -> Seq<Seq<char>> {
    lines_scan(f, 0, 0)
}

/// The characters that `char::is_whitespace` accepts.
pub open spec fn is_space(c: char) -> bool {
    ||| c == ' '
    ||| ('\t' <= c && c <= '\r')
    ||| c == '\u{85}'
    ||| c == '\u{a0}'
    ||| c == '\u{1680}'
    ||| ('\u{2000}' <= c && c <= '\u{200a}')
    ||| c == '\u{2028}'
    ||| c == '\u{2029}'
    ||| c == '\u{202f}'
    ||| c == '\u{205f}'
    ||| c == '\u{3000}'
}

/// `s` without its leading white space.
pub open spec fn trim_start(s: Seq<char>) -> Seq<char>
    decreases s.len(),
{
    if s.len() > 0 && is_space(s[0]) {
        trim_start(s.skip(1))
    } else {
        s
    }
}

/// `s` without its trailing white space.
pub open spec fn trim_end(s: Seq<char>) -> Seq<char>
    decreases s.len(),
{
    if s.len() > 0 && is_space(s.last()) {
        trim_end(s.drop_last())
    } else {
        s
    }
}

/// `s` without white space at either end, as `str::trim` gives it.
pub open spec fn trim(s: Seq<char>) -> Seq<char> {
    trim_start(trim_end(s))
}

/// The `event:` field name.
pub open spec fn event_prefix() -> Seq<char> {
    seq!['e', 'v', 'e', 'n', 't', ':']
}

/// The `data:` field name.
pub open spec fn data_prefix() -> Seq<char> {
    seq!['d', 'a', 't', 'a', ':']
}

/// Whether `s` starts with `p`.
pub open spec fn has_prefix(s: Seq<char>, p: Seq<char>) -> bool {
    p.len() <= s.len() && s.take(p.len() as int) == p
}

/// The event name (the last `event:` line wins) and the data lines of the
/// given lines, each value trimmed.
pub open spec fn frame_fields(lines: Seq<Seq<char>>) -> (Option<Seq<char>>, Seq<Seq<char>>)
    decreases lines.len(),
{
    if lines.len() == 0 {
        (None, Seq::empty())
    } else {
        let (event, data) = frame_fields(lines.drop_last());
        let l = lines.last();
        let event2 = if has_prefix(l, event_prefix()) {
            Some(trim(l.skip(6)))
        } else {
            event
        };
        let data2 = if has_prefix(l, data_prefix()) {
            data.push(trim(l.skip(5)))
        } else {
            data
        };
        (event2, data2)
    }
}

/// Lines joined with LF between them.
pub open spec fn join_lines(ls: Seq<Seq<char>>) -> Seq<char>
    decreases ls.len(),
{
    if ls.len() == 0 {
        Seq::empty()
    } else if ls.len() == 1 {
        ls[0]
    } else {
        join_lines(ls.drop_last()) + seq!['\n'] + ls.last()
    }
}

/// One frame that carries data: its event name, if any, and its data lines
/// joined.
pub struct FrameModel {
    pub event: Option<Seq<char>>,
    pub data: Seq<char>,
}

/// The frames of `frames` that carry data, in order.
pub open spec fn data_frames(frames: Seq<Seq<char>>) -> Seq<FrameModel>
    decreases frames.len(),
{
    if frames.len() == 0 {
        Seq::empty()
    } else {
        let before = data_frames(frames.drop_last());
        let (event, data) = frame_fields(lines_of(frames.last()));
        if data.len() == 0 {
            before
        } else {
            before.push(FrameModel { event, data: join_lines(data) })
        }
    }
}

/// The data frames of an event stream body that is text.
pub open spec fn stream_frames(text: Seq<char>) -> Seq<FrameModel> {
    data_frames(frames_of(unify_newlines(text)))
}

/// A frame of an event stream that carries data.
#[derive(Debug)]
pub struct SseFrame {
    pub event: Option<String>,
    pub data: String,
}

/// What a frame stands for.
pub open spec fn frame_model(f: SseFrame) -> FrameModel {
    FrameModel {
        event: match f.event {
            Some(e) => Some(e@),
            None => None,
        },
        data: f.data@,
    }
}

/// What a sequence of frames stands for.
pub open spec fn frames_model(fs: Seq<SseFrame>) -> Seq<FrameModel> {
    fs.map_values(|f: SseFrame| frame_model(f))
}

/// Replaces each CR LF pair by LF.
fn unify_newlines_exec(s: &Vec<char>) -> (res: Vec<char>)
    ensures
        res@ == unify_newlines(s@),
{
    let mut out: Vec<char> = Vec::new();
    let mut i: usize = 0;
    proof {
        assert(s@.skip(0) =~= s@);
        assert(out@ + s@ =~= s@);
    }
    while i < s.len()
        invariant
            i <= s@.len(),
            unify_newlines(s@) == out@ + unify_newlines(s@.skip(i as int)),
        decreases s@.len() - i,
    {
        let ghost rest = s@.skip(i as int);
        if i + 1 < s.len() && s[i] == '\r' && s[i + 1] == '\n' {
            out.push('\n');
            proof {
                assert(rest[0] == '\r' && rest[1] == '\n');
                assert(rest.skip(2) =~= s@.skip(i + 2));
            }
            i = i + 2;
        } else {
            out.push(s[i]);
            proof {
                assert(rest[0] == s@[i as int]);
                assert(rest.len() >= 2 ==> rest[1] == s@[i + 1]);
                assert(rest.skip(1) =~= s@.skip(i + 1));
            }
            i = i + 1;
        }
    }
    proof {
        assert(s@.skip(i as int) =~= Seq::<char>::empty());
        assert(out@ + Seq::<char>::empty() =~= out@);
    }
    out
}

/// Splits at blank-line separators.
fn split_frames(s: &Vec<char>) -> (res: Vec<Vec<char>>)
    ensures
        res@.map_values(|v: Vec<char>| v@) == frames_of(s@),
{
    let mut out: Vec<Vec<char>> = Vec::new();
    let mut start: usize = 0;
    let mut i: usize = 0;
    while s.len() > 0 && i < s.len() - 1
        invariant
            start <= i <= s@.len(),
            frames_of(s@) == out@.map_values(|v: Vec<char>| v@) + frames_scan(
                s@,
                start as int,
                i as int,
            ),
        decreases s@.len() - i,
    {
        if s[i] == '\n' && s[i + 1] == '\n' {
            let piece = slice_range(s.as_slice(), start, i);
            let ghost before = out@.map_values(|v: Vec<char>| v@);
            out.push(piece);
            proof {
                assert(out@.map_values(|v: Vec<char>| v@) =~= before.push(
                    s@.subrange(start as int, i as int),
                ));
                assert(before + frames_scan(s@, start as int, i as int) =~= before.push(
                    s@.subrange(start as int, i as int),
                ) + frames_scan(s@, i + 2, i + 2));
            }
            i = i + 2;
            start = i;
        } else {
            i = i + 1;
        }
    }
    let piece = slice_range(s.as_slice(), start, s.len());
    let ghost before = out@.map_values(|v: Vec<char>| v@);
    out.push(piece);
    proof {
        assert(out@.map_values(|v: Vec<char>| v@) =~= before + seq![
            s@.subrange(start as int, s@.len() as int),
        ]);
    }
    out
}

/// Drops a CR at the end.
fn drop_cr_exec(l: Vec<char>) -> (res: Vec<char>)
    ensures
        res@ == drop_cr(l@),
{
    let mut l = l;
    if l.len() > 0 && l[l.len() - 1] == '\r' {
        l.pop();
    }
    l
}

/// Splits a frame into lines.
fn split_lines(f: &Vec<char>) -> (res: Vec<Vec<char>>)
    ensures
        res@.map_values(|v: Vec<char>| v@) == lines_of(f@),
{
    let mut out: Vec<Vec<char>> = Vec::new();
    let mut start: usize = 0;
    let mut i: usize = 0;
    while i < f.len()
        invariant
            start <= i <= f@.len(),
            lines_of(f@) == out@.map_values(|v: Vec<char>| v@) + lines_scan(
                f@,
                start as int,
                i as int,
            ),
        decreases f@.len() - i,
    {
        if f[i] == '\n' {
            let piece = drop_cr_exec(slice_range(f.as_slice(), start, i));
            let ghost before = out@.map_values(|v: Vec<char>| v@);
            out.push(piece);
            proof {
                assert(out@.map_values(|v: Vec<char>| v@) =~= before.push(
                    drop_cr(f@.subrange(start as int, i as int)),
                ));
            }
            i = i + 1;
            start = i;
        } else {
            i = i + 1;
        }
    }
    if start < f.len() {
        let piece = slice_range(f.as_slice(), start, f.len());
        let ghost before = out@.map_values(|v: Vec<char>| v@);
        out.push(piece);
        proof {
            assert(out@.map_values(|v: Vec<char>| v@) =~= before + seq![
                f@.subrange(start as int, f@.len() as int),
            ]);
        }
    } else {
        proof {
            assert(out@.map_values(|v: Vec<char>| v@) + Seq::<Seq<char>>::empty() =~= out@.map_values(
                |v: Vec<char>| v@,
            ));
        }
    }
    out
}

/// Whether `c` is white space.
fn is_space_exec(c: char) -> (res: bool)
    ensures
        res == is_space(c),
{
    c == ' ' || ('\t' <= c && c <= '\r') || c == '\u{85}' || c == '\u{a0}' || c == '\u{1680}' || (
    '\u{2000}' <= c && c <= '\u{200a}') || c == '\u{2028}' || c == '\u{2029}' || c == '\u{202f}'
        || c == '\u{205f}' || c == '\u{3000}'
}

/// The characters of `s` from `from` on, without white space at either end.
fn trim_from(s: &Vec<char>, from: usize) -> (res: Vec<char>)
    requires
        from <= s@.len(),
    ensures
        res@ == trim(s@.skip(from as int)),
{
    let ghost t = s@.skip(from as int);
    let mut end: usize = s.len();
    while end > from && is_space_exec(s[end - 1])
        invariant
            from <= end <= s@.len(),
            trim_end(t) == trim_end(s@.subrange(from as int, end as int)),
        decreases end,
    {
        proof {
            let u = s@.subrange(from as int, end as int);
            assert(u.last() == s@[end - 1]);
            assert(u.drop_last() =~= s@.subrange(from as int, end - 1));
        }
        end = end - 1;
    }
    proof {
        let u = s@.subrange(from as int, end as int);
        if u.len() > 0 {
            assert(u.last() == s@[end - 1]);
        }
        assert(trim_end(u) == u);
        assert(t =~= s@.subrange(from as int, s@.len() as int));
    }
    let mut begin: usize = from;
    while begin < end && is_space_exec(s[begin])
        invariant
            from <= begin <= end <= s@.len(),
            trim(t) == trim_start(s@.subrange(begin as int, end as int)),
        decreases end - begin,
    {
        proof {
            let u = s@.subrange(begin as int, end as int);
            assert(u[0] == s@[begin as int]);
            assert(u.skip(1) =~= s@.subrange(begin + 1, end as int));
        }
        begin = begin + 1;
    }
    proof {
        let u = s@.subrange(begin as int, end as int);
        if u.len() > 0 {
            assert(u[0] == s@[begin as int]);
        }
        assert(trim_start(u) == u);
    }
    slice_range(s.as_slice(), begin, end)
}

/// Whether `l` starts with `p`.
fn starts_with_chars(l: &Vec<char>, p: &Vec<char>) -> (res: bool)
    ensures
        res == has_prefix(l@, p@),
{
    if p.len() > l.len() {
        return false;
    }
    let mut i: usize = 0;
    while i < p.len()
        invariant
            i <= p@.len() <= l@.len(),
            forall|j: int| 0 <= j < i ==> l@[j] == p@[j],
        decreases p@.len() - i,
    {
        if l[i] != p[i] {
            proof {
                assert(l@.take(p@.len() as int)[i as int] != p@[i as int]);
            }
            return false;
        }
        i = i + 1;
    }
    proof {
        assert(l@.take(p@.len() as int) =~= p@);
    }
    true
}

/// The event name and data lines of a frame's lines.
fn collect_fields(lines: &Vec<Vec<char>>) -> (res: (Option<Vec<char>>, Vec<Vec<char>>))
    ensures
        ({
            let (event, data) = frame_fields(lines@.map_values(|v: Vec<char>| v@));
            &&& match res.0 {
                Some(e) => event == Some(e@),
                None => event is None,
            }
            &&& res.1@.map_values(|v: Vec<char>| v@) == data
        }),
{
    let event_word = str_chars("event:");
    let data_word = str_chars("data:");
    proof {
        reveal_strlit("event:");
        reveal_strlit("data:");
        assert(event_word@ =~= event_prefix());
        assert(data_word@ =~= data_prefix());
    }
    let ghost all = lines@.map_values(|v: Vec<char>| v@);
    let mut event: Option<Vec<char>> = None;
    let mut data: Vec<Vec<char>> = Vec::new();
    let mut i: usize = 0;
    proof {
        assert(all.take(0) =~= Seq::<Seq<char>>::empty());
    }
    while i < lines.len()
        invariant
            i <= lines@.len(),
            all == lines@.map_values(|v: Vec<char>| v@),
            event_word@ == event_prefix(),
            data_word@ == data_prefix(),
            ({
                let (ev, d) = frame_fields(all.take(i as int));
                &&& match event {
                    Some(e) => ev == Some(e@),
                    None => ev is None,
                }
                &&& data@.map_values(|v: Vec<char>| v@) == d
            }),
        decreases lines@.len() - i,
    {
        let line = &lines[i];
        proof {
            let t = all.take(i + 1);
            assert(t.drop_last() =~= all.take(i as int));
            assert(t.last() == line@);
        }
        if starts_with_chars(line, &event_word) {
            event = Some(trim_from(line, 6));
        }
        if starts_with_chars(line, &data_word) {
            let ghost before = data@.map_values(|v: Vec<char>| v@);
            let value = trim_from(line, 5);
            data.push(value);
            proof {
                assert(data@.map_values(|v: Vec<char>| v@) =~= before.push(trim(line@.skip(5))));
            }
        }
        i = i + 1;
    }
    proof {
        assert(all.take(lines@.len() as int) =~= all);
    }
    (event, data)
}

/// Joins lines with LF between them.
fn join_exec(ls: &Vec<Vec<char>>) -> (res: Vec<char>)
    requires
        ls@.len() > 0,
    ensures
        res@ == join_lines(ls@.map_values(|v: Vec<char>| v@)),
{
    let ghost all = ls@.map_values(|v: Vec<char>| v@);
    let mut out: Vec<char> = slice_range(ls[0].as_slice(), 0, ls[0].len());
    proof {
        assert(ls[0]@.subrange(0, ls[0]@.len() as int) =~= ls[0]@);
        assert(all.take(1).len() == 1);
        assert(all.take(1)[0] == all[0]);
    }
    let mut i: usize = 1;
    while i < ls.len()
        invariant
            1 <= i <= ls@.len(),
            all == ls@.map_values(|v: Vec<char>| v@),
            out@ == join_lines(all.take(i as int)),
        decreases ls@.len() - i,
    {
        let ghost before = out@;
        out.push('\n');
        let piece = &ls[i];
        let mut j: usize = 0;
        while j < piece.len()
            invariant
                j <= piece@.len(),
                out@ == before + seq!['\n'] + piece@.subrange(0, j as int),
            decreases piece@.len() - j,
        {
            out.push(piece[j]);
            j = j + 1;
            proof {
                assert(out@ =~= before + seq!['\n'] + piece@.subrange(0, j as int));
            }
        }
        proof {
            let t = all.take(i + 1);
            assert(t.drop_last() =~= all.take(i as int));
            assert(t.last() == piece@);
            assert(piece@.subrange(0, piece@.len() as int) =~= piece@);
        }
        i = i + 1;
    }
    proof {
        assert(all.take(ls@.len() as int) =~= all);
    }
    out
}

/// The frames of an event stream body that carry data, each with its event
/// name and its data lines joined.  A body that is not UTF-8 is an upstream
/// error.
pub fn sse_frames(body: &[u8]) -> (res: Result<Vec<SseFrame>, GatewayError>)
    ensures
        !valid_utf8(body@) ==> (res matches Err(e) && e.kind == ErrorKind::Upstream && e.message@
            == "upstream SSE body was not valid UTF-8: "@ + utf8_error_text(body@)),
        valid_utf8(body@) ==> (res matches Ok(fs) && frames_model(fs@) == stream_frames(
            decode_utf8(body@),
        )),
{
    let text = match str_from_utf8(body) {
        Ok(t) => t,
        Err(e) => {
            return Err(
                GatewayError {
                    kind: ErrorKind::Upstream,
                    message: concat("upstream SSE body was not valid UTF-8: ", e.as_str()),
                },
            );
        },
    };
    let chars = str_chars(text.as_str());
    let unified = unify_newlines_exec(&chars);
    let frames = split_frames(&unified);
    let ghost all = frames@.map_values(|v: Vec<char>| v@);
    let mut out: Vec<SseFrame> = Vec::new();
    let mut i: usize = 0;
    proof {
        assert(all.take(0) =~= Seq::<Seq<char>>::empty());
        assert(frames_model(out@) =~= Seq::<FrameModel>::empty());
    }
    while i < frames.len()
        invariant
            i <= frames@.len(),
            all == frames@.map_values(|v: Vec<char>| v@),
            frames_model(out@) == data_frames(all.take(i as int)),
        decreases frames@.len() - i,
    {
        let lines = split_lines(&frames[i]);
        let (event, data) = collect_fields(&lines);
        proof {
            let t = all.take(i + 1);
            assert(t.drop_last() =~= all.take(i as int));
            assert(t.last() == frames@[i as int]@);
        }
        if data.len() > 0 {
            let joined = join_exec(&data);
            let frame = SseFrame {
                event: match event {
                    Some(e) => Some(string_from_chars(&e)),
                    None => None,
                },
                data: string_from_chars(&joined),
            };
            let ghost before = out@;
            out.push(frame);
            proof {
                assert(frames_model(out@) =~= frames_model(before).push(frame_model(frame)));
            }
        }
        i = i + 1;
    }
    proof {
        assert(all.take(frames@.len() as int) =~= all);
    }
    Ok(out)
}

/// `s` with every LF written as CR LF.
pub open spec fn with_crlf(s: Seq<char>) -> Seq<char>
    decreases s.len(),
{
    if s.len() == 0 {
        s
    } else if s[0] == '\n' {
        seq!['\r', '\n'] + with_crlf(s.skip(1))
    } else {
        seq![s[0]] + with_crlf(s.skip(1))
    }
}

/// Writing line ends as CR LF is undone by reading them.
proof fn lemma_unify_with_crlf(s: Seq<char>)
    requires
        !s.contains('\r'),
    ensures
        unify_newlines(with_crlf(s)) == s,
    decreases s.len(),
{
    if s.len() > 0 {
        let rest = s.skip(1);
        assert(!rest.contains('\r')) by {
            if rest.contains('\r') {
                let j = choose|j: int| 0 <= j < rest.len() && rest[j] == '\r';
                assert(s[j + 1] == '\r');
            }
        }
        lemma_unify_with_crlf(rest);
        let w = with_crlf(s);
        if s[0] == '\n' {
            assert(w.skip(2) =~= with_crlf(rest));
        } else {
            assert(s[0] != '\r');
            assert(w.skip(1) =~= with_crlf(rest));
        }
        assert(unify_newlines(w) =~= s);
    } else {
        assert(unify_newlines(with_crlf(s)) =~= s);
    }
}

/// An event stream framed with CR LF line ends has the same frames as the
/// one framed with LF.
pub proof fn lemma_crlf_framing_is_lf_framing(text: Seq<char>)
    requires
        !text.contains('\r'),
    ensures
        stream_frames(with_crlf(text)) == stream_frames(text),
{
    lemma_unify_with_crlf(text);
    lemma_unify_lf_only(text);
}

/// Text without CR is left as it is.
proof fn lemma_unify_lf_only(s: Seq<char>)
    requires
        !s.contains('\r'),
    ensures
        unify_newlines(s) == s,
    decreases s.len(),
{
    if s.len() > 0 {
        let rest = s.skip(1);
        assert(!rest.contains('\r')) by {
            if rest.contains('\r') {
                let j = choose|j: int| 0 <= j < rest.len() && rest[j] == '\r';
                assert(s[j + 1] == '\r');
            }
        }
        lemma_unify_lf_only(rest);
        assert(s[0] != '\r');
        assert(seq![s[0]] + rest =~= s);
    }
}

} // verus!

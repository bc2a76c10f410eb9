//! The body of an HTTP request to the single-threaded benchmark server.
//!
//! The server parses the request's head, takes the bytes after it (counted
//! as the number of header slots the parser reports), decodes them as UTF-8
//! (replacing invalid sequences), and keeps the lines that follow the first
//! empty line, each with trailing NUL characters removed and a newline
//! appended. The result is the JSON text of a key-value pair.

use vstd::prelude::*;
use vstd::slice::slice_subrange;
use vstd::utf8::{decode_utf8, valid_utf8};

verus! {

/// A key-value pair as the JSON body carries it.
pub struct KeyValue {
    pub key: String,
    pub value: String,
}

/// The number of header slots that parsing an HTTP request head leaves:
/// `None` where parsing fails.
pub uninterp spec fn http_header_slots(buf: Seq<u8>) -> Option<usize>;

/// Parses `buf` as an HTTP request with `httparse::Request::parse` and room
/// for 16 headers, and returns how many header slots the request holds
/// afterwards (the parsed headers where the head is complete, all 16 where
/// it is partial), or `None` where the parser reports an error. Claimed: the
/// result depends on the bytes alone, and is at most 16.
#[verifier::external_body]
fn parse_header_slots(buf: &[u8]) -> (res: Option<usize>)
    ensures
        res == http_header_slots(buf@),
        res matches Some(n) ==> n <= 16,
{
    let mut headers = [httparse::EMPTY_HEADER; 16];
    let mut req = httparse::Request::new(&mut headers);
    match req.parse(buf) {
        Ok(_) => Some(req.headers.len()),
        Err(_) => None,
    }
}

/// The text that `String::from_utf8_lossy` makes of some bytes.
pub uninterp spec fn lossy_text(bytes: Seq<u8>) -> Seq<char>;

/// `String::from_utf8_lossy`, made an owned string. Claimed: the text
/// depends on the bytes alone, and valid UTF-8 is decoded as it is.
#[verifier::external_body]
fn from_utf8_lossy(bytes: &[u8]) -> (s: String)
    ensures
        s@ == lossy_text(bytes@),
        valid_utf8(bytes@) ==> s@ == decode_utf8(bytes@),
{
    String::from_utf8_lossy(bytes).into_owned()
}

/// A line without its carriage return, where it ends with one.
pub open spec fn strip_cr(line: Seq<char>) -> Seq<char> {
    if line.len() > 0 && line.last() == '\r' {
        line.drop_last()
    } else {
        line
    }
}

/// The lines of `s` from position `i` on, where the current line starts at
/// `start`: split at `\n`, a `\r` before the `\n` removed, no empty last line
/// after a final `\n` (the lines of `str::lines`).
pub open spec fn lines_from(s: Seq<char>, start: int, i: int) -> Seq<Seq<char>>
    decreases s.len() - i,
{
    if i < 0 || i >= s.len() {
        if 0 <= start < s.len() {
            seq![s.subrange(start, s.len() as int)]
        } else {
            Seq::empty()
        }
    } else if s[i] == '\n' {
        seq![strip_cr(s.subrange(start, i))] + lines_from(s, i + 1, i + 1)
    } else {
        lines_from(s, start, i + 1)
    }
}

/// The lines of `s`.
pub open spec fn lines_of(s: Seq<char>) -> Seq<Seq<char>> {
    lines_from(s, 0, 0)
}

/// A line without its trailing NUL characters.
pub open spec fn trim_nul(line: Seq<char>) -> Seq<char>
    decreases line.len(),
{
    if line.len() > 0 && line.last() == '\0' {
        trim_nul(line.drop_last())
    } else {
        line
    }
}

/// Trimming removes trailing NULs and nothing else: the trimmed line is a
/// prefix of the line, every character cut off is a NUL, and the trimmed
/// line does not end in a NUL. So a line that does not end in a NUL is kept
/// verbatim, spaces and all.
pub proof fn lemma_trim_nul_cuts_only_trailing_nuls(line: Seq<char>)
    ensures
        trim_nul(line).len() <= line.len(),
        trim_nul(line) == line.subrange(0, trim_nul(line).len() as int),
        forall|i: int| trim_nul(line).len() <= i < line.len() ==> #[trigger] line[i] == '\0',
        trim_nul(line).len() == 0 || trim_nul(line).last() != '\0',
        (line.len() == 0 || line.last() != '\0') ==> trim_nul(line) == line,
    decreases line.len(),
{
    if line.len() > 0 && line.last() == '\0' {
        let shorter = line.drop_last();
        lemma_trim_nul_cuts_only_trailing_nuls(shorter);
        let t = trim_nul(shorter);
        assert(t =~= line.subrange(0, t.len() as int));
        assert forall|i: int| t.len() <= i < line.len() implies #[trigger] line[i] == '\0' by {
            if i < shorter.len() {
                assert(line[i] == shorter[i]);
            }
        }
    }
}

/// The body kept from `lines`: each non-empty line after the first empty
/// one (or every non-empty line, where `found`), trimmed of NULs and
/// followed by a newline.
pub open spec fn body_of(lines: Seq<Seq<char>>, found: bool) -> Seq<char>
    decreases lines.len(),
{
    if lines.len() == 0 {
        Seq::empty()
    } else if lines[0].len() == 0 {
        body_of(lines.drop_first(), true)
    } else if found {
        trim_nul(lines[0]) + seq!['\n'] + body_of(lines.drop_first(), true)
    } else {
        body_of(lines.drop_first(), false)
    }
}

/// The JSON body of the text of a request.
pub open spec fn json_body(text: Seq<char>) -> Seq<char> {
    body_of(lines_of(text), false)
}

proof fn lemma_body_of_cons(l: Seq<char>, rest: Seq<Seq<char>>, found: bool)
    ensures
        body_of(seq![l] + rest, found) == if l.len() == 0 {
            body_of(rest, true)
        } else if found {
            trim_nul(l) + seq!['\n'] + body_of(rest, true)
        } else {
            body_of(rest, false)
        },
{
    assert((seq![l] + rest).drop_first() =~= rest);
    assert((seq![l] + rest)[0] == l);
}

/// `line` without its trailing NUL characters.
fn trim_nul_exec(line: &str) -> (t: String)
    ensures
        t@ == trim_nul(line@),
{
    let mut end = line.unicode_len();
    assert(line@.subrange(0, end as int) =~= line@);
    while end > 0 && line.get_char(end - 1) == '\0'
        invariant
            end <= line@.len(),
            trim_nul(line@) == trim_nul(line@.subrange(0, end as int)),
        decreases end,
    {
        proof {
            assert(line@.subrange(0, end as int).drop_last() =~= line@.subrange(0, end - 1));
        }
        end = end - 1;
    }
    proof {
        let sub = line@.subrange(0, end as int);
        if end > 0 {
            assert(sub.last() == line@[end - 1]);
        }
    }
    line.substring_char(0, end).to_string()
}

/// Appends what one line adds to the body, and notes an empty line.
fn take_line(body: &mut String, found: &mut bool, line: &str)
    ensures
        final(body)@ + body_of(Seq::<Seq<char>>::empty(), *final(found)) == old(body)@ + body_of(
            seq![line@],
            *old(found),
        ),
        *final(found) == (*old(found) || line@.len() == 0),
        line@.len() > 0 && *old(found) ==> final(body)@ == old(body)@ + trim_nul(line@) + seq!['\n'],
        !(line@.len() > 0 && *old(found)) ==> final(body)@ == old(body)@,
{
    proof {
        lemma_body_of_cons(line@, Seq::empty(), *old(found));
        assert(seq![line@] + Seq::<Seq<char>>::empty() =~= seq![line@]);
        reveal_strlit("\n");
        assert("\n"@ =~= seq!['\n']);
    }
    if line.unicode_len() == 0 {
        *found = true;
    } else if *found {
        let t = trim_nul_exec(line);
        body.append(t.as_str());
        body.append("\n");
    }
    proof {
        assert(body_of(Seq::<Seq<char>>::empty(), *found) == Seq::<char>::empty());
        assert(final(body)@ + Seq::<char>::empty() =~= final(body)@);
    }
}

/// The JSON body of the text of a request: the lines after the first empty
/// line, each trimmed of trailing NULs and followed by a newline.
pub fn extract_json_body(text: &str) -> (body: String)
    ensures
        body@ == json_body(text@),
{
    let n = text.unicode_len();
    let mut body = String::new();
    let mut found = false;
    let mut start: usize = 0;
    let mut i: usize = 0;
    while i < n
        invariant
            n == text@.len(),
            start <= i <= n,
            json_body(text@) == body@ + body_of(lines_from(text@, start as int, i as int), found),
        decreases n - i,
    {
        if text.get_char(i) == '\n' {
            let mut end = i;
            if end > start && text.get_char(end - 1) == '\r' {
                end = end - 1;
            }
            let line = text.substring_char(start, end);
            proof {
                let piece = text@.subrange(start as int, i as int);
                assert(line@ == strip_cr(piece)) by {
                    if piece.len() > 0 && piece.last() == '\r' {
                        assert(piece.drop_last() =~= text@.subrange(start as int, end as int));
                    } else {
                        assert(piece =~= text@.subrange(start as int, end as int));
                    }
                }
                lemma_body_of_cons(line@, lines_from(text@, i + 1, i + 1), found);
            }
            take_line(&mut body, &mut found, line);
            i = i + 1;
            start = i;
        } else {
            i = i + 1;
        }
    }
    if start < n {
        let line = text.substring_char(start, n);
        proof {
            lemma_body_of_cons(line@, Seq::empty(), found);
            assert(seq![line@] + Seq::<Seq<char>>::empty() =~= seq![line@]);
        }
        take_line(&mut body, &mut found, line);
    }
    proof {
        assert(body@ + Seq::<char>::empty() =~= body@);
    }
    body
}

/// The JSON body of a request received in `buffer`: the bytes after as many
/// bytes as the parsed request has header slots, decoded, then cut down to
/// the lines after the first empty line. `None` where the request does not
/// parse.
pub fn request_body(buffer: &[u8]) -> (body: Option<String>)
    requires
        buffer@.len() >= 16,
    ensures
        http_header_slots(buffer@) is None ==> body is None,
        http_header_slots(buffer@) matches Some(n) ==> (body matches Some(b) && b@ == json_body(
            lossy_text(buffer@.subrange(n as int, buffer@.len() as int)),
        )),
{
    match parse_header_slots(buffer) {
        None => None,
        Some(count) => {
            let bytes = slice_subrange(buffer, count, buffer.len());
            let text = from_utf8_lossy(bytes);
            Some(extract_json_body(text.as_str()))
        },
    }
}

} // verus!

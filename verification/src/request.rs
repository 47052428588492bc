//! The request line and the `Host` header of a captured head.
use vstd::prelude::*;
use vstd::utf8::{decode_utf8, valid_utf8};
use crate::error::ProxyError;
use crate::text::{is_white_space, lemma_next_of, lines, lossy_text, next_of, trimmed_from};
use crate::text::{views, CharClass, Text};

verus! {

/// What the proxy reads out of a request head.
#[derive(Debug, PartialEq, Eq)]
pub struct Request {
    /// The request line as it was sent.
    pub line: String,
    /// The first word of the request line.
    pub method: String,
    /// The second word of the request line.
    pub target: String,
    /// The value of the first `Host` header, if the head holds one.
    pub host: Option<String>,
}

/// The mathematical value of a [`Request`].
pub struct RequestView {
    pub line: Seq<char>,
    pub method: Seq<char>,
    pub target: Seq<char>,
    pub host: Option<Seq<char>>,
}

/// The characters of a string that may be absent.
pub open spec fn optional_text(text: Option<String>) -> Option<Seq<char>> {
    match text {
        Some(text) => Some(text@),
        None => None,
    }
}

impl View for Request {
    type V = RequestView;

    open spec fn view(&self) -> RequestView {
        RequestView {
            line: self.line@,
            method: self.method@,
            target: self.target@,
            host: optional_text(self.host),
        }
    }
}

/// Where a word of `line` starts and ends: the first run of characters at or
/// after `from` that holds no white space.
pub open spec fn word_at(line: Seq<char>, from: int) -> (int, int) {
    let start = next_of(line, CharClass::Visible, from);
    (start, next_of(line, CharClass::Blank, start))
}

/// The method and the target of a request line: its first two words.
pub open spec fn words_of(line: Seq<char>) -> Result<(Seq<char>, Seq<char>), ProxyError> {
    let method = word_at(line, 0);
    let target = word_at(line, method.1);
    if method.0 >= line.len() {
        Err(ProxyError::MissingMethod)
    } else if target.0 >= line.len() {
        Err(ProxyError::MissingTarget)
    } else {
        Ok((line.subrange(method.0, method.1), line.subrange(target.0, target.1)))
    }
}

/// The two words of a request line are not empty and hold no white space.
pub proof fn lemma_words_of(line: Seq<char>)
    requires
        words_of(line) is Ok,
    ensures
        ({
            let (method, target) = words_of(line)->Ok_0;
            &&& method.len() > 0
            &&& target.len() > 0
            &&& forall|i: int| 0 <= i < method.len() ==> !is_white_space(#[trigger] method[i])
            &&& forall|i: int| 0 <= i < target.len() ==> !is_white_space(#[trigger] target[i])
        }),
{
    let method = word_at(line, 0);
    let target = word_at(line, method.1);
    lemma_next_of(line, CharClass::Visible, 0);
    lemma_next_of(line, CharClass::Blank, method.0);
    lemma_next_of(line, CharClass::Visible, method.1);
    lemma_next_of(line, CharClass::Blank, target.0);
    assert forall|i: int| 0 <= i < method.1 - method.0 implies !is_white_space(
        #[trigger] line.subrange(method.0, method.1)[i],
    ) by {
        assert(!CharClass::Blank.holds(line[method.0 + i]));
    }
    assert forall|i: int| 0 <= i < target.1 - target.0 implies !is_white_space(
        #[trigger] line.subrange(target.0, target.1)[i],
    ) by {
        assert(!CharClass::Blank.holds(line[target.0 + i]));
    }
}

/// The name of the header that carries the host.
pub open spec fn host_key() -> Seq<char> {
    seq!['H', 'o', 's', 't']
}

/// `line` is a header whose key, the text before its first colon, is exactly `Host`.
pub open spec fn is_host_line(line: Seq<char>) -> bool {
    let colon = next_of(line, CharClass::Colon, 0);
    colon < line.len() && line.take(colon) == host_key()
}

/// The value of a header line: what follows its first colon, without the
/// white space around it.
pub open spec fn header_value(line: Seq<char>) -> Seq<char> {
    trimmed_from(line, next_of(line, CharClass::Colon, 0) + 1)
}

/// The value of the first `Host` header among `lines` from index `from` on.
pub open spec fn host_from(lines: Seq<Seq<char>>, from: int) -> Option<Seq<char>>
    decreases lines.len() - from,
{
    if from < 0 || from >= lines.len() {
        None
    } else if is_host_line(lines[from]) {
        Some(header_value(lines[from]))
    } else {
        host_from(lines, from + 1)
    }
}

/// What the text of a head holds: the request line, its first two words, and
/// the first `Host` header among the lines after it.
pub open spec fn request_of(text: Seq<char>) -> Result<RequestView, ProxyError> {
    let all = lines(text);
    if all.len() == 0 {
        Err(ProxyError::MissingRequestLine)
    } else {
        match words_of(all[0]) {
            Err(e) => Err(e),
            Ok(words) => Ok(
                RequestView {
                    line: all[0],
                    method: words.0,
                    target: words.1,
                    host: host_from(all, 1),
                },
            ),
        }
    }
}

/// Whether `line` is a header whose key is exactly `Host`.
pub fn is_host_header(line: &Text) -> (is: bool)
    ensures
        is == is_host_line(line@),
{
    let colon = line.find_next(CharClass::Colon, 0);
    let is = colon == 4 && colon < line.len() && line.char_at(0) == 'H' && line.char_at(1) == 'o'
        && line.char_at(2) == 's' && line.char_at(3) == 't';
    proof {
        if is {
            assert(line@.take(colon as int) =~= host_key());
        } else if colon < line@.len() && line@.take(colon as int) == host_key() {
            assert(host_key().len() == 4);
            assert(line@.take(colon as int)[0] == 'H');
            assert(line@.take(colon as int)[1] == 'o');
            assert(line@.take(colon as int)[2] == 's');
            assert(line@.take(colon as int)[3] == 't');
        }
    }
    is
}

/// The value of the first `Host` header among the lines after the first.
pub fn find_host(lines: &Vec<Text>) -> (host: Option<String>)
    requires
        forall|i: int| 0 <= i < lines@.len() ==> (#[trigger] lines@[i]).wf(),
    ensures
        match host {
            Some(value) => host_from(views(lines@), 1) == Some(value@),
            None => host_from(views(lines@), 1) is None,
        },
{
    let ghost all = views(lines@);
    let mut at: usize = 1;
    while at < lines.len()
        invariant
            1 <= at,
            all == views(lines@),
            forall|i: int| 0 <= i < lines@.len() ==> (#[trigger] lines@[i]).wf(),
            host_from(all, 1) == host_from(all, at as int),
        decreases lines@.len() - at,
    {
        let line = &lines[at];
        if is_host_header(line) {
            proof {
                let colon = next_of(line@, CharClass::Colon, 0);
                lemma_next_of(line@, CharClass::Colon, 0);
                assert(line@.take(colon).len() == host_key().len());
            }
            return Some(line.trimmed_from(5));
        }
        at += 1;
    }
    None
}

/// Reads the request out of the text of a head.
pub fn parse_text(text: &Text) -> (parsed: Result<Request, ProxyError>)
    requires
        text.wf(),
    ensures
        match parsed {
            Ok(request) => request_of(text@) == Ok::<RequestView, ProxyError>(request@),
            Err(e) => request_of(text@) == Err::<RequestView, ProxyError>(e),
        },
{
    let all = text.lines();
    if all.len() == 0 {
        return Err(ProxyError::MissingRequestLine);
    }
    let first = &all[0];
    let len = first.len();
    let method_start = first.find_next(CharClass::Visible, 0);
    if method_start >= len {
        return Err(ProxyError::MissingMethod);
    }
    let method_end = first.find_next(CharClass::Blank, method_start);
    let target_start = first.find_next(CharClass::Visible, method_end);
    proof {
        lemma_next_of(first@, CharClass::Visible, 0);
        lemma_next_of(first@, CharClass::Blank, method_start as int);
        lemma_next_of(first@, CharClass::Visible, method_end as int);
    }
    if target_start >= len {
        return Err(ProxyError::MissingTarget);
    }
    let target_end = first.find_next(CharClass::Blank, target_start);
    proof {
        lemma_next_of(first@, CharClass::Blank, target_start as int);
    }
    let line = first.slice(0, len);
    assert(line@ =~= first@);
    Ok(
        Request {
            line,
            method: first.slice(method_start, method_end),
            target: first.slice(target_start, target_end),
            host: find_host(&all),
        },
    )
}

/// Reads the request out of the bytes of a head: the bytes are decoded as
/// UTF-8, with U+FFFD for what is no valid encoding, and read as text. Of
/// bytes that are valid UTF-8 the text is the one that they encode.
pub fn parse_head(head: &[u8]) -> (parsed: Result<Request, ProxyError>)
    ensures
        match parsed {
            Ok(request) => request_of(lossy_text(head@)) == Ok::<RequestView, ProxyError>(
                request@,
            ),
            Err(e) => request_of(lossy_text(head@)) == Err::<RequestView, ProxyError>(e),
        },
        valid_utf8(head@) ==> lossy_text(head@) == decode_utf8(head@),
{
    let text = Text::decode(head);
    parse_text(&text)
}

} // verus!

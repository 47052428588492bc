//! Text as the proxy reads it: decoded once from bytes, then scanned by
//! position, one character class at a time.
use vstd::prelude::*;
use vstd::utf8::{decode_utf8, valid_utf8};

verus! {

/// The text that `String::from_utf8_lossy` makes of `bytes`: the characters
/// that the bytes encode in UTF-8, with U+FFFD in place of what is no valid
/// encoding.
pub uninterp spec fn lossy_text(bytes: Seq<u8>) -> Seq<char>;

/// Calls `String::from_utf8_lossy` and takes ownership of what it returns.
/// The result depends on the bytes alone; the contract gives it its name, and
/// states what std documents of bytes that are valid UTF-8: they come back as
/// the string that they encode.
#[verifier::external_body]
fn decode_lossy(bytes: &[u8]) -> (text: String)
    ensures
        text@ == lossy_text(bytes@),
        valid_utf8(bytes@) ==> text@ == decode_utf8(bytes@),
{
    String::from_utf8_lossy(bytes).into_owned()
}

/// The characters that Unicode gives the property White_Space.
pub open spec fn is_white_space(c: char) -> bool {
    ||| '\u{9}' <= c <= '\u{d}'
    ||| c == ' '
    ||| c == '\u{85}'
    ||| c == '\u{a0}'
    ||| c == '\u{1680}'
    ||| '\u{2000}' <= c <= '\u{200a}'
    ||| c == '\u{2028}'
    ||| c == '\u{2029}'
    ||| c == '\u{202f}'
    ||| c == '\u{205f}'
    ||| c == '\u{3000}'
}

/// Whether `c` is white space.
pub fn is_whitespace(c: char) -> (blank: bool)
    ensures
        blank == is_white_space(c),
{
    ('\u{9}' <= c && c <= '\u{d}') || c == ' ' || c == '\u{85}' || c == '\u{a0}'
        || c == '\u{1680}' || ('\u{2000}' <= c && c <= '\u{200a}') || c == '\u{2028}'
        || c == '\u{2029}' || c == '\u{202f}' || c == '\u{205f}' || c == '\u{3000}'
}

/// A class of characters that a scan can look for.
#[derive(Clone, Copy, Debug, PartialEq, Eq, Structural)]
pub enum CharClass {
    /// The line feed.
    LineFeed,
    /// The colon.
    Colon,
    /// White space.
    Blank,
    /// Everything but white space.
    Visible,
    /// The characters that end the authority of a URL: slash, backslash,
    /// question mark and number sign.
    Delimiter,
    /// Everything but slash and backslash.
    NotSlash,
}

impl CharClass {
    /// `c` belongs to the class.
    pub open spec fn holds(self, c: char) -> bool {
        match self {
            CharClass::LineFeed => c == '\n',
            CharClass::Colon => c == ':',
            CharClass::Blank => is_white_space(c),
            CharClass::Visible => !is_white_space(c),
            CharClass::Delimiter => c == '/' || c == '\\' || c == '?' || c == '#',
            CharClass::NotSlash => c != '/' && c != '\\',
        }
    }

    /// Whether `c` belongs to the class.
    pub fn test(self, c: char) -> (belongs: bool)
        ensures
            belongs == self.holds(c),
    {
        match self {
            CharClass::LineFeed => c == '\n',
            CharClass::Colon => c == ':',
            CharClass::Blank => is_whitespace(c),
            CharClass::Visible => !is_whitespace(c),
            CharClass::Delimiter => c == '/' || c == '\\' || c == '?' || c == '#',
            CharClass::NotSlash => c != '/' && c != '\\',
        }
    }
}

/// The first position at or after `from` whose character is of `class`, or
/// the length of `text` where there is none.
pub open spec fn next_of(text: Seq<char>, class: CharClass, from: int) -> int
    decreases text.len() - from,
{
    if from < 0 || from >= text.len() {
        text.len() as int
    } else if class.holds(text[from]) {
        from
    } else {
        next_of(text, class, from + 1)
    }
}

/// `next_of` is the one position that no character of the class precedes and
/// that holds one, or ends the text.
pub proof fn lemma_next_of(text: Seq<char>, class: CharClass, from: int)
    requires
        0 <= from <= text.len(),
    ensures
        from <= next_of(text, class, from) <= text.len(),
        forall|k: int| from <= k < next_of(text, class, from) ==> !class.holds(#[trigger] text[k]),
        next_of(text, class, from) < text.len() ==> class.holds(
            text[next_of(text, class, from)],
        ),
    decreases text.len() - from,
{
    if from < text.len() && !class.holds(text[from]) {
        lemma_next_of(text, class, from + 1);
    }
}

/// A position that no character of the class precedes and that holds one, or
/// ends the text, is `next_of`.
pub proof fn lemma_next_of_is(text: Seq<char>, class: CharClass, from: int, at: int)
    requires
        0 <= from <= at <= text.len(),
        forall|k: int| from <= k < at ==> !class.holds(#[trigger] text[k]),
        at < text.len() ==> class.holds(text[at]),
    ensures
        next_of(text, class, from) == at,
    decreases at - from,
{
    if from < at {
        lemma_next_of_is(text, class, from + 1, at);
    }
}

/// The position behind the last character before `upto` that is no white
/// space, or 0 where all of them are.
pub open spec fn visible_end(text: Seq<char>, upto: int) -> int
    decreases upto,
{
    if upto <= 0 || upto > text.len() {
        0
    } else if !is_white_space(text[upto - 1]) {
        upto
    } else {
        visible_end(text, upto - 1)
    }
}

/// `visible_end` is the one position up to `upto` that only white space
/// follows and that stands behind a character that is none, or starts the text.
pub proof fn lemma_visible_end(text: Seq<char>, upto: int)
    requires
        0 <= upto <= text.len(),
    ensures
        0 <= visible_end(text, upto) <= upto,
        forall|k: int| visible_end(text, upto) <= k < upto ==> is_white_space(#[trigger] text[k]),
        visible_end(text, upto) > 0 ==> !is_white_space(text[visible_end(text, upto) - 1]),
    decreases upto,
{
    if upto > 0 && is_white_space(text[upto - 1]) {
        lemma_visible_end(text, upto - 1);
    }
}

/// What stands in `text` from `from` on, without the white space at its two ends.
pub open spec fn trimmed_from(text: Seq<char>, from: int) -> Seq<char> {
    let start = next_of(text, CharClass::Visible, from);
    let end = visible_end(text, text.len() as int);
    if start < end {
        text.subrange(start, end)
    } else {
        Seq::empty()
    }
}

/// What `trimmed_from` gives neither starts nor ends with white space, and
/// only white space stands between `from` and it and between it and the end
/// of the text.
pub proof fn lemma_trimmed_from(text: Seq<char>, from: int)
    requires
        0 <= from <= text.len(),
    ensures
        ({
            let piece = trimmed_from(text, from);
            let start = next_of(text, CharClass::Visible, from);
            &&& piece.len() > 0 ==> !is_white_space(piece.first()) && !is_white_space(piece.last())
            &&& forall|k: int| from <= k < start ==> is_white_space(#[trigger] text[k])
            &&& forall|k: int|
                start + piece.len() <= k < text.len() ==> is_white_space(#[trigger] text[k])
            &&& piece.len() > 0 ==> piece == text.subrange(start, start + piece.len())
        }),
{
    let start = next_of(text, CharClass::Visible, from);
    let end = visible_end(text, text.len() as int);
    lemma_next_of(text, CharClass::Visible, from);
    lemma_visible_end(text, text.len() as int);
    if start < end {
        assert forall|k: int| from <= k < start implies is_white_space(#[trigger] text[k]) by {
            assert(!CharClass::Visible.holds(text[k]));
        }
    } else {
        assert forall|k: int| from <= k < text.len() implies is_white_space(#[trigger] text[k]) by {
            if k < start {
                assert(!CharClass::Visible.holds(text[k]));
            }
        }
    }
}

/// Where the line that starts at `from` ends: at its line feed, or with the text.
pub open spec fn line_end(text: Seq<char>, from: int) -> int {
    next_of(text, CharClass::LineFeed, from)
}

/// The line that starts at `from`, without its line feed and without a
/// carriage return before that line feed.
pub open spec fn line_at(text: Seq<char>, from: int) -> Seq<char> {
    let end = line_end(text, from);
    if from < end < text.len() && text[end - 1] == '\r' {
        text.subrange(from, end - 1)
    } else {
        text.subrange(from, end)
    }
}

/// The lines of `text` from position `from` on.
pub open spec fn lines_from(text: Seq<char>, from: int) -> Seq<Seq<char>>
    decreases text.len() + 1 - from,
{
    if from < 0 || from >= text.len() {
        Seq::empty()
    } else {
        proof {
            lemma_next_of(text, CharClass::LineFeed, from);
        }
        seq![line_at(text, from)] + lines_from(text, line_end(text, from) + 1)
    }
}

/// The lines of `text`. A line ends with a line feed or with the text; a
/// carriage return before the line feed belongs to the line ending. Text that
/// ends with a line feed has no empty line after it.
pub open spec fn lines(text: Seq<char>) -> Seq<Seq<char>> {
    lines_from(text, 0)
}

/// No line holds a line feed.
pub proof fn lemma_lines_hold_no_line_feed(text: Seq<char>, from: int)
    requires
        0 <= from,
    ensures
        forall|i: int, k: int|
            0 <= i < lines_from(text, from).len() && 0 <= k < lines_from(text, from)[i].len()
                ==> #[trigger] lines_from(text, from)[i][k] != '\n',
    decreases text.len() + 1 - from,
{
    if from < text.len() {
        let end = line_end(text, from);
        let rest = lines_from(text, end + 1);
        lemma_next_of(text, CharClass::LineFeed, from);
        lemma_lines_hold_no_line_feed(text, end + 1);
        assert forall|i: int, k: int|
            0 <= i < lines_from(text, from).len() && 0 <= k < lines_from(
                text,
                from,
            )[i].len() implies #[trigger] lines_from(text, from)[i][k] != '\n' by {
            if i == 0 {
                assert(!CharClass::LineFeed.holds(text[from + k]));
            } else {
                assert(lines_from(text, from)[i] == rest[i - 1]);
            }
        }
    }
}

/// A piece of text that can be read by position.
#[derive(Debug)]
pub struct Text {
    source: String,
    chars: Vec<char>,
}

impl View for Text {
    type V = Seq<char>;

    closed spec fn view(&self) -> Seq<char> {
        self.chars@
    }
}

/// The characters of each of `texts`.
pub open spec fn views(texts: Seq<Text>) -> Seq<Seq<char>> {
    Seq::new(texts.len(), |i: int| texts[i]@)
}

impl Text {
    /// The invariant of a text: both of its forms hold the same characters.
    pub closed spec fn wf(&self) -> bool {
        self.source@ == self.chars@
    }

    /// The text of a string.
    pub fn from_string(source: String) -> (text: Text)
        ensures
            text.wf(),
            text@ == source@,
    {
        broadcast use vstd::string::axiom_spec_iter;

        let mut chars: Vec<char> = Vec::new();
        for c in iter: source.as_str().chars()
            invariant
                iter.seq() == source@,
                chars@ == iter.seq().take(iter.index()),
        {
            chars.push(c);
        }
        assert(chars@ =~= source@);
        Text { source, chars }
    }

    /// The text that `bytes` encode, with U+FFFD for what is no valid UTF-8.
    pub fn decode(bytes: &[u8]) -> (text: Text)
        ensures
            text.wf(),
            text@ == lossy_text(bytes@),
            valid_utf8(bytes@) ==> text@ == decode_utf8(bytes@),
    {
        Text::from_string(decode_lossy(bytes))
    }

    /// The number of characters.
    pub fn len(&self) -> (len: usize)
        ensures
            len == self@.len(),
    {
        self.chars.len()
    }

    /// The character at `at`.
    pub fn char_at(&self, at: usize) -> (c: char)
        requires
            at < self@.len(),
        ensures
            c == self@[at as int],
    {
        self.chars[at]
    }

    /// The characters from `from` up to `to`, as a string.
    pub fn slice(&self, from: usize, to: usize) -> (piece: String)
        requires
            self.wf(),
            from <= to <= self@.len(),
        ensures
            piece@ == self@.subrange(from as int, to as int),
    {
        self.source.as_str().substring_char(from, to).to_owned()
    }

    /// The first position at or after `from` whose character is of `class`,
    /// or the length of the text where there is none.
    pub fn find_next(&self, class: CharClass, from: usize) -> (at: usize)
        ensures
            at == next_of(self@, class, from as int),
    {
        let len = self.chars.len();
        if from >= len {
            return len;
        }
        let mut at: usize = from;
        while at < len && !class.test(self.chars[at])
            invariant
                from <= at <= len,
                len == self.chars@.len(),
                forall|k: int| from <= k < at ==> !class.holds(#[trigger] self.chars@[k]),
            decreases len - at,
        {
            at += 1;
        }
        proof {
            lemma_next_of_is(self@, class, from as int, at as int);
        }
        at
    }

    /// The position behind the last character that is no white space, or 0
    /// where all of them are.
    pub fn find_visible_end(&self) -> (end: usize)
        ensures
            end == visible_end(self@, self@.len() as int),
    {
        let mut end: usize = self.chars.len();
        while end > 0 && is_whitespace(self.chars[end - 1])
            invariant
                end <= self.chars@.len(),
                visible_end(self.chars@, end as int) == visible_end(
                    self.chars@,
                    self.chars@.len() as int,
                ),
            decreases end,
        {
            end -= 1;
        }
        end
    }

    /// What stands in the text from `from` on, without the white space at
    /// its two ends.
    pub fn trimmed_from(&self, from: usize) -> (piece: String)
        requires
            self.wf(),
        ensures
            piece@ == trimmed_from(self@, from as int),
    {
        let start = self.find_next(CharClass::Visible, from);
        let end = self.find_visible_end();
        proof {
            lemma_visible_end(self@, self@.len() as int);
        }
        if start < end {
            self.slice(start, end)
        } else {
            String::new()
        }
    }

    /// The lines of the text.
    pub fn lines(&self) -> (out: Vec<Text>)
        requires
            self.wf(),
        ensures
            views(out@) == lines(self@),
            forall|i: int| 0 <= i < out@.len() ==> (#[trigger] out@[i]).wf(),
    {
        let len = self.chars.len();
        let mut out: Vec<Text> = Vec::new();
        let mut from: usize = 0;
        while from < len
            invariant
                self.wf(),
                len == self@.len(),
                from <= len,
                lines(self@) =~= views(out@) + lines_from(self@, from as int),
                forall|i: int| 0 <= i < out@.len() ==> (#[trigger] out@[i]).wf(),
            decreases len - from,
        {
            let end = self.find_next(CharClass::LineFeed, from);
            proof {
                lemma_next_of(self@, CharClass::LineFeed, from as int);
            }
            let stop = if from < end && end < len && self.chars[end - 1] == '\r' {
                end - 1
            } else {
                end
            };
            let line = Text::from_string(self.slice(from, stop));
            let ghost before = views(out@);
            let ghost rest = lines_from(self@, end + 1);
            assert(line@ == line_at(self@, from as int));
            assert(lines_from(self@, from as int) == seq![line@] + rest);
            out.push(line);
            assert(views(out@) =~= before + seq![line@]);
            from = if end < len {
                end + 1
            } else {
                len
            };
            assert(lines_from(self@, from as int) == rest);
        }
        assert(lines(self@) =~= views(out@));
        out
    }
}

} // verus!

//! What a language server answers, as far as it needs no wire: positions, words, paths,
//! and what a request asks for.

use vstd::prelude::*;

use crate::syntax::lexer::{lemma_offset_grows, lemma_offset_is_byte_length, Source};
use crate::text::{
    all_digits, begins, cat4, char_is_white, chars, digits_value, is_alnum, is_digit, is_white,
    lemma_digits, nat_text, offset, push, same, show_u64, slice, trim, trimmed,
};

verus! {

/// How many UTF-16 code units a character takes.
pub open spec fn units(c: char) -> nat {
    if (c as u32) < 0x10000 {
        1
    } else {
        2
    }
}

/// How many characters begin before the byte `at`, counting from the `i`th on.
pub open spec fn chars_before(s: Seq<char>, at: nat, i: int) -> int
    decreases s.len() - i,
{
    if 0 <= i < s.len() && offset(s, i) < at {
        chars_before(s, at, i + 1)
    } else {
        i
    }
}

/// The line and the column of the place after `n` characters. The column is counted in
/// UTF-16 code units, which is what editors count in.
pub open spec fn line_and_column(s: Seq<char>, n: int) -> (nat, nat)
    decreases n,
{
    if n <= 0 || n > s.len() {
        (0, 0)
    } else {
        let (line, column) = line_and_column(s, n - 1);
        if s[n - 1] == '\n' {
            (line + 1, 0)
        } else {
            (line, column + units(s[n - 1]))
        }
    }
}

/// The position of a byte.
pub open spec fn position_of(s: Seq<char>, at: nat) -> (nat, nat) {
    line_and_column(s, chars_before(s, at, 0))
}

/// Where line `line`, counting from character `i`, begins; the end, where there is no such
/// line.
pub open spec fn line_start(s: Seq<char>, line: nat, i: int) -> int
    decreases s.len() - i,
{
    if i < 0 || i >= s.len() || line == 0 {
        i
    } else if s[i] == '\n' {
        line_start(s, (line - 1) as nat, i + 1)
    } else {
        line_start(s, line, i + 1)
    }
}

/// Where `column` code units from character `i` end, `seen` of which are counted already.
/// A line that is shorter ends at its line break.
pub open spec fn column_end(s: Seq<char>, i: int, seen: nat, column: nat) -> int
    decreases s.len() - i,
{
    if i < 0 || i >= s.len() || seen >= column || s[i] == '\n' {
        i
    } else {
        column_end(s, i + 1, seen + units(s[i]), column)
    }
}

/// The character a position is at.
pub open spec fn char_of(s: Seq<char>, line: nat, column: nat) -> int {
    column_end(s, line_start(s, line, 0), 0, column)
}

/// The byte a position is at.
pub open spec fn byte_of(s: Seq<char>, line: nat, column: nat) -> nat {
    offset(s, char_of(s, line, column))
}

/// The start of the line the place after `n` characters is on.
spec fn back_to_line(s: Seq<char>, n: int) -> int
    decreases n,
{
    if n <= 0 || n > s.len() || s[n - 1] == '\n' {
        n
    } else {
        back_to_line(s, n - 1)
    }
}

proof fn lemma_back_to_line(s: Seq<char>, n: int)
    requires
        0 <= n <= s.len(),
    ensures
        0 <= back_to_line(s, n) <= n,
        forall|k: int| back_to_line(s, n) <= k < n ==> s[k] != '\n',
        line_and_column(s, back_to_line(s, n)).0 == line_and_column(s, n).0,
        back_to_line(s, n) == 0 || s[back_to_line(s, n) - 1] == '\n',
    decreases n,
{
    if n > 0 && s[n - 1] != '\n' {
        lemma_back_to_line(s, n - 1);
    }
}

/// A line begins after as many line breaks as its number says.
proof fn lemma_line_start(s: Seq<char>, b: int, i: int)
    requires
        0 <= i <= b <= s.len(),
        b == 0 || s[b - 1] == '\n',
    ensures
        line_and_column(s, i).0 <= line_and_column(s, b).0,
        i < b ==> line_and_column(s, i).0 < line_and_column(s, b).0,
        line_start(s, (line_and_column(s, b).0 - line_and_column(s, i).0) as nat, i) == b,
    decreases b - i,
{
    if i < b {
        lemma_line_start(s, b, i + 1);
    }
}

/// Counting from the start of a line to a place on it ends at that place.
proof fn lemma_column_end(s: Seq<char>, b: int, n: int, i: int)
    requires
        0 <= b <= i <= n <= s.len(),
        b == 0 || s[b - 1] == '\n',
        forall|k: int| b <= k < n ==> s[k] != '\n',
    ensures
        line_and_column(s, i).1 <= line_and_column(s, n).1,
        i < n ==> line_and_column(s, i).1 < line_and_column(s, n).1,
        column_end(s, i, line_and_column(s, i).1, line_and_column(s, n).1) == n,
    decreases n - i,
{
    if i < n {
        lemma_column_end(s, b, n, i + 1);
    }
}

/// A position undoes what made it: the character a place's position is at is that place.
pub proof fn lemma_position_is_undone(s: Seq<char>, n: int)
    requires
        0 <= n <= s.len(),
    ensures
        ({
            let (line, column) = line_and_column(s, n);
            char_of(s, line, column) == n
        }),
{
    let b = back_to_line(s, n);
    lemma_back_to_line(s, n);
    lemma_line_start(s, b, 0);
    lemma_column_end(s, b, n, b);
}

proof fn lemma_chars_before(s: Seq<char>, n: int, i: int)
    requires
        0 <= i <= n <= s.len(),
    ensures
        chars_before(s, offset(s, n), i) == n,
    decreases n - i,
{
    if i < n {
        lemma_offset_grows(s, i, n);
        lemma_chars_before(s, n, i + 1);
    }
}

/// A byte that a character begins at is where its position is.
pub proof fn lemma_byte_is_found_again(s: Seq<char>, n: int)
    requires
        0 <= n <= s.len(),
    ensures
        ({
            let (line, column) = position_of(s, offset(s, n));
            byte_of(s, line, column) == offset(s, n)
        }),
{
    lemma_chars_before(s, n, 0);
    lemma_position_is_undone(s, n);
}

pub open spec fn is_part(c: char) -> bool {
    is_alnum(c) || c == '_'
}

/// Where the word that reaches up to `i` begins.
pub open spec fn word_start(s: Seq<char>, i: int) -> int
    decreases i,
{
    if 0 < i <= s.len() && is_part(s[i - 1]) {
        word_start(s, i - 1)
    } else {
        i
    }
}

/// Where the word that goes on from `i` ends.
pub open spec fn word_end(s: Seq<char>, i: int) -> int
    decreases s.len() - i,
{
    if 0 <= i < s.len() && is_part(s[i]) {
        word_end(s, i + 1)
    } else {
        i
    }
}

/// The byte range of the word a byte sits in.
pub open spec fn word_of(s: Seq<char>, at: nat) -> (nat, nat) {
    let i = chars_before(s, at, 0);
    (offset(s, word_start(s, i)), offset(s, word_end(s, i)))
}

/// The value of a hexadecimal digit.
pub open spec fn hex_value(c: char) -> Option<u8> {
    if '0' <= c && c <= '9' {
        Some((c as u8 - '0' as u8) as u8)
    } else if 'a' <= c && c <= 'f' {
        Some((c as u8 - 'a' as u8 + 10) as u8)
    } else if 'A' <= c && c <= 'F' {
        Some((c as u8 - 'A' as u8 + 10) as u8)
    } else {
        None
    }
}

/// The number the one or two characters of an escape stand for. A `+` may stand in front.
pub open spec fn escaped_value(s: Seq<char>, i: int) -> Option<u8> {
    if i + 1 < s.len() {
        match (hex_value(s[i]), hex_value(s[i + 1])) {
            (Some(a), Some(b)) => Some((a * 16 + b) as u8),
            (None, Some(b)) => if s[i] == '+' {
                Some(b)
            } else {
                None
            },
            _ => None,
        }
    } else if i < s.len() {
        hex_value(s[i])
    } else {
        None
    }
}

/// The path from character `i` of a URI on, with its escapes taken out.
pub open spec fn unescaped(s: Seq<char>, i: int, acc: Seq<char>) -> Option<Seq<char>>
    decreases s.len() - i,
{
    if i < 0 || i >= s.len() {
        Some(acc)
    } else if s[i] != '%' {
        unescaped(s, i + 1, acc.push(s[i]))
    } else {
        match escaped_value(s, i + 1) {
            Some(byte) => if i + 3 <= s.len() {
                unescaped(s, i + 3, acc.push(byte as char))
            } else {
                Some(acc.push(byte as char))
            },
            None => None,
        }
    }
}

/// `file:///a/b%20c.mwl` as a path.
pub open spec fn path_in(uri: Seq<char>) -> Option<Seq<char>> {
    if begins(uri, "file://"@) {
        unescaped(uri, 7, seq![])
    } else {
        None
    }
}

/// What a message asks for.
#[derive(Debug, Clone, Copy, PartialEq, Eq, Structural)]
pub enum Request {
    Initialize,
    Open,
    Change,
    Save,
    Close,
    Complete,
    Hover,
    Shutdown,
    Exit,
    /// Not understood, and an answer is waited for.
    Unknown,
    /// Not understood, and nothing is waited for.
    Ignored,
}

/// A request must be answered even when it is not understood, or the client waits for
/// ever. A notification must not be.
pub open spec fn request_in(method: Seq<char>, has_id: bool) -> Request {
    if method == "initialize"@ {
        Request::Initialize
    } else if method == "textDocument/didOpen"@ {
        Request::Open
    } else if method == "textDocument/didChange"@ {
        Request::Change
    } else if method == "textDocument/didSave"@ {
        Request::Save
    } else if method == "textDocument/didClose"@ {
        Request::Close
    } else if method == "textDocument/completion"@ {
        Request::Complete
    } else if method == "textDocument/hover"@ {
        Request::Hover
    } else if method == "shutdown"@ {
        Request::Shutdown
    } else if method == "exit"@ {
        Request::Exit
    } else if has_id {
        Request::Unknown
    } else {
        Request::Ignored
    }
}

/// A text without a `+` in front.
pub open spec fn unsigned(s: Seq<char>) -> Seq<char> {
    if s.len() > 0 && s[0] == '+' {
        s.skip(1)
    } else {
        s
    }
}

/// The number a text is, in decimal. A `+` may stand in front.
pub open spec fn number_in(s: Seq<char>) -> Option<nat> {
    let digits = unsigned(s);
    if digits.len() > 0 && all_digits(digits) && digits_value(digits) <= usize::MAX {
        Some(digits_value(digits))
    } else {
        None
    }
}

/// One line in front of a message.
#[derive(Debug, Clone, Copy, PartialEq, Eq, Structural)]
pub enum Header {
    /// The empty line: the message follows.
    End,
    /// How many bytes the message has, if that is a number.
    Length(Option<usize>),
    /// Anything else.
    Other,
}

/// A text without the white space it ends in.
pub open spec fn without_end(s: Seq<char>) -> Seq<char>
    decreases s.len(),
{
    if s.len() > 0 && is_white(s.last()) {
        without_end(s.drop_last())
    } else {
        s
    }
}

/// What one line in front of a message says.
pub open spec fn header_in(line: Seq<char>) -> Header {
    let kept = without_end(line);
    if kept.len() == 0 {
        Header::End
    } else if begins(kept, "Content-Length:"@) {
        Header::Length(
            match number_in(trim(kept.skip(15))) {
                Some(n) => Some(n as usize),
                None => None,
            },
        )
    } else {
        Header::Other
    }
}

/// A message as it is sent: how many bytes it has, an empty line, and the message.
pub open spec fn framed(body: Seq<char>) -> Seq<char> {
    "Content-Length: "@ + nat_text(offset(body, body.len() as int)) + "\r\n\r\n"@ + body
}

/// A number that was written is read back.
pub proof fn lemma_numbers_are_read_back(n: nat)
    requires
        n <= usize::MAX,
    ensures
        number_in(nat_text(n)) == Some(n),
{
    lemma_digits(n);
    assert(is_digit(nat_text(n)[0]));
}

/// The line a message is announced with says how many bytes it has, and the line after it
/// that the message follows.
pub proof fn lemma_framing_is_read_back(body: Seq<char>)
    requires
        offset(body, body.len() as int) <= usize::MAX,
    ensures
        ({
            let n = offset(body, body.len() as int);
            let announced = "Content-Length: "@ + nat_text(n) + "\r\n"@;
            &&& framed(body) == announced + "\r\n"@ + body
            &&& header_in(announced) == Header::Length(Some(n as usize))
            &&& header_in("\r\n"@) == Header::End
        }),
{
    let n = offset(body, body.len() as int);
    let digits = nat_text(n);
    let head = "Content-Length: "@;
    let announced = head + digits + "\r\n"@;
    reveal_strlit("Content-Length: ");
    reveal_strlit("Content-Length:");
    reveal_strlit("\r\n");
    reveal_strlit("\r\n\r\n");
    assert(framed(body) =~= announced + "\r\n"@ + body);
    lemma_digits(n);
    lemma_numbers_are_read_back(n);
    assert(is_digit(digits[0]));
    assert(is_digit(digits.last()));
    let kept = head + digits;
    assert(announced.drop_last().drop_last() =~= kept);
    assert(without_end(announced) == without_end(announced.drop_last()));
    assert(without_end(announced.drop_last()) == without_end(kept));
    assert(kept.last() == digits.last());
    assert(without_end(kept) == kept);
    assert(kept.take(15) =~= "Content-Length:"@);
    let rest = kept.skip(15);
    assert(rest =~= seq![' '] + digits);
    assert(rest.skip(1) =~= digits);
    assert(trim(rest) == trim(digits));
    assert(trim(digits) == digits);
    let empty = "\r\n"@;
    assert(empty.drop_last().drop_last() =~= seq![]);
    assert(without_end(empty) == without_end(empty.drop_last()));
    assert(without_end(empty.drop_last()) == without_end(empty.drop_last().drop_last()));
    assert(header_in(empty) == Header::End);
    assert(begins(kept, "Content-Length:"@));
    assert(header_in(announced) == Header::Length(Some(n as usize)));
}

// ---------------------------------------------------------------------------
// Finding them.
// ---------------------------------------------------------------------------

/// The number a text is, in decimal.
fn parse_number(v: &Vec<char>) -> (r: Option<usize>)
    ensures
        match r {
            Some(n) => number_in(v@) == Some(n as nat),
            None => number_in(v@) is None,
        },
{
    let from: usize = if v.len() > 0 && v[0] == '+' {
        1
    } else {
        0
    };
    let ghost digits = unsigned(v@);
    proof {
        assert(digits =~= v@.skip(from as int));
    }
    if v.len() == from {
        return None;
    }
    let mut n: usize = 0;
    let mut over = false;
    let mut i: usize = from;
    proof {
        assert(digits.take(0) =~= seq![]);
    }
    while i < v.len()
        invariant
            from <= i <= v@.len(),
            digits == v@.skip(from as int),
            digits == unsigned(v@),
            forall|k: int| 0 <= k < i - from ==> is_digit(#[trigger] digits[k]),
            over ==> digits_value(digits.take(i - from)) > usize::MAX,
            !over ==> n == digits_value(digits.take(i - from)),
        decreases v.len() - i,
    {
        let c = v[i];
        proof {
            assert(digits[i - from] == c);
            assert(digits.take(i - from + 1).drop_last() =~= digits.take(i - from));
            assert(digits.take(i - from + 1).last() == c);
        }
        if !('0' <= c && c <= '9') {
            proof {
                assert(!is_digit(digits[i - from]));
            }
            return None;
        }
        let d: usize = (c as u32 - '0' as u32) as usize;
        if over || n > (usize::MAX - d) / 10 {
            over = true;
        } else {
            n = n * 10 + d;
        }
        i += 1;
    }
    proof {
        assert(digits.take(i - from) =~= digits);
    }
    if over {
        None
    } else {
        Some(n)
    }
}

/// What one line in front of a message says.
pub fn header_of(line: &str) -> (r: Header)
    ensures
        r == header_in(line@),
{
    let v = chars(line);
    let mut to: usize = v.len();
    proof {
        assert(line@.take(to as int) =~= line@);
    }
    while to > 0 && char_is_white(v[to - 1])
        invariant
            to <= v@.len(),
            v@ == line@,
            without_end(line@) == without_end(line@.take(to as int)),
        decreases to,
    {
        proof {
            assert(line@.take(to as int).drop_last() =~= line@.take(to - 1));
        }
        to -= 1;
    }
    let kept = slice(&v, 0, to);
    proof {
        assert(kept@ =~= line@.take(to as int));
        reveal_strlit("Content-Length:");
    }
    if to == 0 {
        return Header::End;
    }
    let kept = chars(kept.as_str());
    if kept.len() < 15 {
        return Header::Other;
    }
    let head = slice(&kept, 0, 15);
    proof {
        assert(head@ =~= kept@.take(15));
    }
    if !same(head.as_str(), "Content-Length:") {
        return Header::Other;
    }
    let rest = chars(slice(&kept, 15, kept.len()).as_str());
    proof {
        assert(rest@ =~= kept@.skip(15));
    }
    let number = chars(trimmed(&rest).as_str());
    Header::Length(parse_number(&number))
}

/// A message as it is sent.
pub fn frame(body: &str) -> (r: String)
    ensures
        r@ == framed(body@),
{
    proof {
        lemma_offset_is_byte_length(body@);
    }
    let n: usize = body.as_bytes().len();
    cat4("Content-Length: ", show_u64(n as u64).as_str(), "\r\n\r\n", body)
}

pub fn request_of(method: &str, has_id: bool) -> (r: Request)
    ensures
        r == request_in(method@, has_id),
{
    if same(method, "initialize") {
        Request::Initialize
    } else if same(method, "textDocument/didOpen") {
        Request::Open
    } else if same(method, "textDocument/didChange") {
        Request::Change
    } else if same(method, "textDocument/didSave") {
        Request::Save
    } else if same(method, "textDocument/didClose") {
        Request::Close
    } else if same(method, "textDocument/completion") {
        Request::Complete
    } else if same(method, "textDocument/hover") {
        Request::Hover
    } else if same(method, "shutdown") {
        Request::Shutdown
    } else if same(method, "exit") {
        Request::Exit
    } else if has_id {
        Request::Unknown
    } else {
        Request::Ignored
    }
}

fn count_before(source: &Source, at: usize) -> (r: usize)
    requires
        source.wf(),
    ensures
        r == chars_before(source.chars@, at as nat, 0),
        r <= source.chars@.len(),
{
    let mut i: usize = 0;
    while i < source.chars.len() && source.offsets[i] < at
        invariant
            i <= source.chars@.len(),
            source.wf(),
            chars_before(source.chars@, at as nat, 0) == chars_before(
                source.chars@,
                at as nat,
                i as int,
            ),
        decreases source.chars.len() - i,
    {
        i += 1;
    }
    i
}

fn units_of(c: char) -> (r: u64)
    ensures
        r == units(c),
        1 <= r <= 2,
{
    if (c as u32) < 0x10000 {
        1
    } else {
        2
    }
}

proof fn lemma_column_is_bounded(s: Seq<char>, n: int)
    requires
        0 <= n <= s.len(),
    ensures
        line_and_column(s, n).0 <= n,
        line_and_column(s, n).1 <= offset(s, n),
    decreases n,
{
    if n > 0 {
        lemma_column_is_bounded(s, n - 1);
    }
}

/// A byte offset as an editor counts it: the line, and the column in UTF-16 code units.
/// Everything the lexer accepts is ASCII, but a string literal or a comment can hold
/// anything.
pub fn position(text: &str, at: usize) -> (r: (u64, u64))
    ensures
        (r.0 as nat, r.1 as nat) == position_of(text@, at as nat),
{
    let source = Source::new(text);
    let n: usize = count_before(&source, at);
    let mut line: u64 = 0;
    let mut column: u64 = 0;
    let mut i: usize = 0;
    while i < n
        invariant
            i <= n <= source.chars@.len(),
            source.wf(),
            source.chars@ == text@,
            (line as nat, column as nat) == line_and_column(text@, i as int),
        decreases n - i,
    {
        proof {
            lemma_column_is_bounded(text@, i + 1);
            assert(source.offsets@[i + 1] == offset(text@, i + 1));
        }
        if source.chars[i] == '\n' {
            line += 1;
            column = 0;
        } else {
            column += units_of(source.chars[i]);
        }
        i += 1;
    }
    (line, column)
}

/// An editor's position as a byte offset: the inverse of [`position`].
pub fn offset_of(text: &str, line: u64, column: u64) -> (r: usize)
    ensures
        r == byte_of(text@, line as nat, column as nat),
{
    let source = Source::new(text);
    let mut left: u64 = line;
    let mut i: usize = 0;
    while i < source.chars.len() && left > 0
        invariant
            i <= source.chars@.len(),
            source.chars@ == text@,
            line_start(text@, line as nat, 0) == line_start(text@, left as nat, i as int),
        decreases source.chars.len() - i,
    {
        if source.chars[i] == '\n' {
            left -= 1;
        }
        i += 1;
    }
    let ghost start = i as int;
    let mut seen: u64 = 0;
    while i < source.chars.len() && seen < column && source.chars[i] != '\n'
        invariant
            i <= source.chars@.len(),
            source.chars@ == text@,
            source.wf(),
            start == line_start(text@, line as nat, 0),
            start <= i,
            seen <= 2 * (i - start),
            column_end(text@, start, 0, column as nat) == column_end(
                text@,
                i as int,
                seen as nat,
                column as nat,
            ),
        decreases source.chars.len() - i,
    {
        let step: u64 = units_of(source.chars[i]);
        if column - seen <= step {
            proof {
                assert(column_end(text@, i + 1, (seen + step) as nat, column as nat) == i + 1);
            }
            return source.offsets[i + 1];
        }
        seen += step;
        i += 1;
    }
    source.offsets[i]
}

fn part(c: char) -> (r: bool)
    ensures
        r == is_part(c),
{
    ('A' <= c && c <= 'Z') || ('a' <= c && c <= 'z') || ('0' <= c && c <= '9') || c == '_'
}

/// The byte range of the word the offset sits in.
///
/// Lexical, and that is enough: a command name is one identifier.
pub fn word(text: &str, at: usize) -> (r: (usize, usize))
    ensures
        (r.0 as nat, r.1 as nat) == word_of(text@, at as nat),
{
    let source = Source::new(text);
    let n: usize = count_before(&source, at);
    let mut start: usize = n;
    while start > 0 && part(source.chars[start - 1])
        invariant
            start <= n <= source.chars@.len(),
            source.chars@ == text@,
            word_start(text@, n as int) == word_start(text@, start as int),
        decreases start,
    {
        start -= 1;
    }
    let mut end: usize = n;
    while end < source.chars.len() && part(source.chars[end])
        invariant
            n <= end <= source.chars@.len(),
            source.chars@ == text@,
            word_end(text@, n as int) == word_end(text@, end as int),
        decreases source.chars.len() - end,
    {
        end += 1;
    }
    (source.offsets[start], source.offsets[end])
}

fn hex_digit(c: char) -> (r: Option<u8>)
    ensures
        r == hex_value(c),
        r is Some ==> r->0 < 16,
{
    if '0' <= c && c <= '9' {
        Some(c as u8 - '0' as u8)
    } else if 'a' <= c && c <= 'f' {
        Some(c as u8 - 'a' as u8 + 10)
    } else if 'A' <= c && c <= 'F' {
        Some(c as u8 - 'A' as u8 + 10)
    } else {
        None
    }
}

fn escape_at(v: &Vec<char>, i: usize) -> (r: Option<u8>)
    requires
        i <= v@.len(),
    ensures
        r == escaped_value(v@, i as int),
{
    if v.len() - i > 1 {
        match (hex_digit(v[i]), hex_digit(v[i + 1])) {
            (Some(a), Some(b)) => Some(a * 16 + b),
            (None, Some(b)) => {
                if v[i] == '+' {
                    Some(b)
                } else {
                    None
                }
            },
            _ => None,
        }
    } else if i < v.len() {
        hex_digit(v[i])
    } else {
        None
    }
}

/// `file:///a/b%20c.mwl` into a path. Only the escapes a path can actually contain.
pub fn path_of(uri: &str) -> (r: Option<String>)
    ensures
        match r {
            Some(path) => path_in(uri@) == Some(path@),
            None => path_in(uri@) is None,
        },
{
    let v = chars(uri);
    proof {
        reveal_strlit("file://");
    }
    let head = chars("file://");
    if v.len() < 7 {
        return None;
    }
    let mut k: usize = 0;
    while k < 7
        invariant
            k <= 7 <= v@.len(),
            v@ == uri@,
            head@ == "file://"@,
            head@.len() == 7,
            forall|j: int| 0 <= j < k ==> v@[j] == head@[j],
        decreases 7 - k,
    {
        if v[k] != head[k] {
            proof {
                assert(uri@.take(7)[k as int] != "file://"@[k as int]);
            }
            return None;
        }
        k += 1;
    }
    proof {
        assert(uri@.take(7) =~= "file://"@);
    }
    let mut out = String::new();
    proof {
        assert(out@ =~= seq![]);
    }
    let mut i: usize = 7;
    while i < v.len()
        invariant
            7 <= i,
            v@ == uri@,
            path_in(uri@) == unescaped(uri@, 7, seq![]),
            unescaped(uri@, 7, seq![]) == unescaped(uri@, i as int, out@),
        decreases v.len() - i,
    {
        if v[i] != '%' {
            push(&mut out, v[i]);
            i += 1;
        } else {
            match escape_at(&v, i + 1) {
                Some(byte) => {
                    push(&mut out, byte as char);
                    if v.len() - i < 3 {
                        return Some(out);
                    }
                    i += 3;
                },
                None => {
                    return None;
                },
            }
        }
    }
    Some(out)
}

} // verus!

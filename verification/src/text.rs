//! Text as the compiler handles it: sequences of characters, and the handful of
//! operations on them that the stages share.

use vstd::prelude::*;

verus! {

// ---------------------------------------------------------------------------
// What the operations mean.
// ---------------------------------------------------------------------------

/// `0` to `9`.
pub open spec fn is_digit(c: char) -> bool {
    '0' <= c && c <= '9'
}

pub open spec fn is_upper(c: char) -> bool {
    'A' <= c && c <= 'Z'
}

pub open spec fn is_lower(c: char) -> bool {
    'a' <= c && c <= 'z'
}

/// An ASCII letter.
pub open spec fn is_letter(c: char) -> bool {
    is_upper(c) || is_lower(c)
}

/// An ASCII letter or digit.
pub open spec fn is_alnum(c: char) -> bool {
    is_letter(c) || is_digit(c)
}

/// ASCII whitespace: tab, line feed, form feed, carriage return and space.
pub open spec fn is_space(c: char) -> bool {
    c == '\t' || c == '\n' || c == '\x0c' || c == '\r' || c == ' '
}

/// The character of one decimal digit.
pub open spec fn digit_char(d: int) -> char {
    if d == 1 {
        '1'
    } else if d == 2 {
        '2'
    } else if d == 3 {
        '3'
    } else if d == 4 {
        '4'
    } else if d == 5 {
        '5'
    } else if d == 6 {
        '6'
    } else if d == 7 {
        '7'
    } else if d == 8 {
        '8'
    } else if d == 9 {
        '9'
    } else {
        '0'
    }
}

/// A natural number in decimal, without leading zeros.
pub open spec fn nat_text(n: nat) -> Seq<char>
    decreases n,
{
    if n < 10 {
        seq![digit_char(n as int)]
    } else {
        nat_text(n / 10).push(digit_char((n % 10) as int))
    }
}

/// The number that digits stand for.
pub open spec fn digits_value(s: Seq<char>) -> nat
    decreases s.len(),
{
    if s.len() == 0 {
        0
    } else {
        digits_value(s.drop_last()) * 10 + (s.last() as nat - '0' as nat) as nat
    }
}

pub open spec fn all_digits(s: Seq<char>) -> bool {
    forall|i: int| 0 <= i < s.len() ==> is_digit(#[trigger] s[i])
}

/// The digits a number is written with stand for it.
pub proof fn lemma_digits(n: nat)
    ensures
        digits_value(nat_text(n)) == n,
        nat_text(n).len() > 0,
        all_digits(nat_text(n)),
    decreases n,
{
    if n < 10 {
        let s = nat_text(n);
        assert(s =~= seq![digit_char(n as int)]);
        assert(digits_value(s.drop_last()) == 0);
    } else {
        lemma_digits(n / 10);
        let s = nat_text(n);
        assert(s.drop_last() =~= nat_text(n / 10));
        assert forall|i: int| 0 <= i < s.len() implies is_digit(#[trigger] s[i]) by {
            if i < s.len() - 1 {
                assert(s[i] == nat_text(n / 10)[i]);
            }
        }
    }
}

/// Different numbers are written differently.
pub proof fn lemma_numbers_differ(a: nat, b: nat)
    ensures
        nat_text(a) == nat_text(b) <==> a == b,
{
    lemma_digits(a);
    lemma_digits(b);
}

/// An integer in decimal, with a `-` in front of a negative one.
pub open spec fn int_text(n: int) -> Seq<char> {
    if n < 0 {
        seq!['-'] + nat_text((-n) as nat)
    } else {
        nat_text(n as nat)
    }
}

/// `true` or `false`.
pub open spec fn bool_text(b: bool) -> Seq<char> {
    if b {
        "true"@
    } else {
        "false"@
    }
}

/// Whether `s` begins with `p`.
pub open spec fn begins(s: Seq<char>, p: Seq<char>) -> bool {
    p.len() <= s.len() && s.take(p.len() as int) == p
}

/// The first position at or after `from` that holds `c`, or the length of `s`.
pub open spec fn find_from(s: Seq<char>, c: char, from: int) -> int
    decreases s.len() - from,
{
    if from < 0 || from >= s.len() {
        s.len() as int
    } else if s[from] == c {
        from
    } else {
        find_from(s, c, from + 1)
    }
}

/// The part before the first `c` and the part after it, if there is one.
pub open spec fn split_once(s: Seq<char>, c: char) -> Option<(Seq<char>, Seq<char>)> {
    let at = find_from(s, c, 0);
    if at < s.len() {
        Some((s.take(at), s.skip(at + 1)))
    } else {
        None
    }
}

/// The last position before `upto` that holds `c`, or `-1`.
pub open spec fn rfind(s: Seq<char>, c: char, upto: int) -> int
    decreases upto,
{
    if upto <= 0 || upto > s.len() {
        -1
    } else if s[upto - 1] == c {
        upto - 1
    } else {
        rfind(s, c, upto - 1)
    }
}

/// The parts of `s` from `from` on, cut at every `c`.
pub open spec fn split_from(s: Seq<char>, c: char, from: int) -> Seq<Seq<char>>
    decreases s.len() - from,
{
    if from < 0 || from > s.len() {
        seq![]
    } else {
        let at = find_from(s, c, from);
        if from <= at < s.len() {
            seq![s.subrange(from, at)] + split_from(s, c, at + 1)
        } else {
            seq![s.skip(from)]
        }
    }
}

/// The parts put together with `sep` between them.
pub open spec fn join(parts: Seq<Seq<char>>, sep: Seq<char>) -> Seq<char>
    decreases parts.len(),
{
    if parts.len() == 0 {
        seq![]
    } else if parts.len() == 1 {
        parts[0]
    } else {
        join(parts.drop_last(), sep) + sep + parts.last()
    }
}

/// How one character is written inside a double-quoted string.
pub open spec fn escape_char(c: char) -> Seq<char> {
    if c == '\\' {
        seq!['\\', '\\']
    } else if c == '"' {
        seq!['\\', '"']
    } else {
        seq![c]
    }
}

/// The inside of a double-quoted string: the two characters that cannot stand alone
/// there are written with a backslash in front.
pub open spec fn escape(s: Seq<char>) -> Seq<char>
    decreases s.len(),
{
    if s.len() == 0 {
        seq![]
    } else {
        escape(s.drop_last()) + escape_char(s.last())
    }
}

/// A double-quoted string.
pub open spec fn quote(s: Seq<char>) -> Seq<char> {
    seq!['"'] + escape(s) + seq!['"']
}

/// `s` with every `::` written as `by` instead, reading from the left.
pub open spec fn replace_colons(s: Seq<char>, by: char, from: int) -> Seq<char>
    decreases s.len() - from,
{
    if from < 0 || from >= s.len() {
        seq![]
    } else if s[from] == ':' && from + 1 < s.len() && s[from + 1] == ':' {
        seq![by] + replace_colons(s, by, from + 2)
    } else {
        seq![s[from]] + replace_colons(s, by, from + 1)
    }
}

/// `s` without the characters `c`.
pub open spec fn without(s: Seq<char>, c: char) -> Seq<char>
    decreases s.len(),
{
    if s.len() == 0 {
        seq![]
    } else if s.last() == c {
        without(s.drop_last(), c)
    } else {
        without(s.drop_last(), c).push(s.last())
    }
}

/// `s` without the characters `c` it ends in.
pub open spec fn trim_end(s: Seq<char>, c: char) -> Seq<char>
    decreases s.len(),
{
    if s.len() > 0 && s.last() == c {
        trim_end(s.drop_last(), c)
    } else {
        s
    }
}

/// `s` without the characters `c` it begins with.
pub open spec fn trim_start(s: Seq<char>, c: char) -> Seq<char>
    decreases s.len(),
{
    if s.len() > 0 && s[0] == c {
        trim_start(s.skip(1), c)
    } else {
        s
    }
}

/// Whether `c` is white space: whether it has Unicode's `White_Space` property.
pub open spec fn is_white(c: char) -> bool {
    ||| '\t' <= c <= '\r'
    ||| c == ' '
    ||| c == '\u{85}'
    ||| c == '\u{a0}'
    ||| c == '\u{1680}'
    ||| '\u{2000}' <= c <= '\u{200a}'
    ||| c == '\u{2028}'
    ||| c == '\u{2029}'
    ||| c == '\u{202f}'
    ||| c == '\u{205f}'
    ||| c == '\u{3000}'
}

/// `s` without the white space around it.
pub open spec fn trim(s: Seq<char>) -> Seq<char>
    decreases s.len(),
{
    if s.len() > 0 && is_white(s.last()) {
        trim(s.drop_last())
    } else if s.len() > 0 && is_white(s[0]) {
        trim(s.skip(1))
    } else {
        s
    }
}

/// Every character that is not an ASCII letter or digit written as `_`.
pub open spec fn underscored(s: Seq<char>) -> Seq<char> {
    Seq::new(s.len(), |i: int| if is_alnum(s[i]) { s[i] } else { '_' })
}

/// An ASCII letter in lower case, and any other character as it is.
pub open spec fn lower_char(c: char) -> char {
    if is_upper(c) {
        ((c as u8) + 32) as u8 as char
    } else {
        c
    }
}

/// A text with its ASCII letters in lower case.
pub open spec fn lowered(s: Seq<char>) -> Seq<char> {
    Seq::new(s.len(), |i: int| lower_char(s[i]))
}

/// Whether a datapack path can hold a character.
pub open spec fn is_path_char(c: char) -> bool {
    is_lower(c) || is_digit(c) || c == '_'
}

/// The lower-case form of a string, as Unicode has it.
pub uninterp spec fn lowercase(s: Seq<char>) -> Seq<char>;

/// A string between quotes with everything unprintable escaped, as Rust's debug
/// formatting writes it.
pub uninterp spec fn debug_text(s: Seq<char>) -> Seq<char>;

/// How many bytes a character takes in UTF-8.
pub open spec fn width(c: char) -> nat {
    if (c as u32) < 0x80 {
        1
    } else if (c as u32) < 0x800 {
        2
    } else if (c as u32) < 0x10000 {
        3
    } else {
        4
    }
}

/// The byte offset of the `i`th character of `s`.
pub open spec fn offset(s: Seq<char>, i: int) -> nat
    decreases i,
{
    if i <= 0 {
        0
    } else {
        offset(s, i - 1) + width(s[i - 1])
    }
}

/// Whether `a` comes before `b` in the order of their characters.
pub open spec fn before(a: Seq<char>, b: Seq<char>) -> bool
    decreases a.len(),
{
    if b.len() == 0 {
        false
    } else if a.len() == 0 {
        true
    } else if a[0] != b[0] {
        a[0] < b[0]
    } else {
        before(a.skip(1), b.skip(1))
    }
}

/// What each string of a list says.
pub open spec fn texts(v: Seq<String>) -> Seq<Seq<char>> {
    Seq::new(v.len(), |i: int| v[i]@)
}

// ---------------------------------------------------------------------------
// The operations.
// ---------------------------------------------------------------------------

/// `str`'s equality: two strings are equal exactly when they hold the same characters.
#[verifier::external_body]
pub(crate) fn same(a: &str, b: &str) -> (r: bool)
    ensures
        r == (a@ == b@),
{
    a == b
}

/// `String::push`: puts one character at the end.
#[verifier::external_body]
pub(crate) fn push(s: &mut String, c: char)
    ensures
        final(s)@ == old(s)@.push(c),
{
    s.push(c)
}

/// `str::to_lowercase`. Its result is named; of a string of ASCII characters it is also
/// stated that `A` to `Z` become `a` to `z` and that nothing else changes.
#[verifier::external_body]
pub(crate) fn to_lowercase(s: &str) -> (r: String)
    ensures
        r@ == lowercase(s@),
        (forall|i: int| 0 <= i < s@.len() ==> (#[trigger] s@[i] as u32) < 0x80) ==> r@ == lowered(
            s@,
        ),
{
    s.to_lowercase()
}

/// Whether a character is white space.
pub(crate) fn char_is_white(c: char) -> (r: bool)
    ensures
        r == is_white(c),
{
    ('\t' <= c && c <= '\r') || c == ' ' || c == '\u{85}' || c == '\u{a0}' || c == '\u{1680}' || (
    '\u{2000}' <= c && c <= '\u{200a}') || c == '\u{2028}' || c == '\u{2029}' || c == '\u{202f}'
        || c == '\u{205f}' || c == '\u{3000}'
}

/// The debug form of a `str`, which is named.
#[verifier::external_body]
pub(crate) fn debug(s: &str) -> (r: String)
    ensures
        r@ == debug_text(s@),
{
    format!("{s:?}")
}

pub(crate) fn own(s: &str) -> (r: String)
    ensures
        r@ == s@,
{
    s.to_owned()
}

pub(crate) fn cat2(a: &str, b: &str) -> (r: String)
    ensures
        r@ == a@ + b@,
{
    let mut s = a.to_owned();
    s.append(b);
    s
}

pub(crate) fn cat3(a: &str, b: &str, c: &str) -> (r: String)
    ensures
        r@ == a@ + b@ + c@,
{
    let mut s = a.to_owned();
    s.append(b);
    s.append(c);
    s
}

pub(crate) fn cat4(a: &str, b: &str, c: &str, d: &str) -> (r: String)
    ensures
        r@ == a@ + b@ + c@ + d@,
{
    let mut s = cat3(a, b, c);
    s.append(d);
    s
}

pub(crate) fn cat5(a: &str, b: &str, c: &str, d: &str, e: &str) -> (r: String)
    ensures
        r@ == a@ + b@ + c@ + d@ + e@,
{
    let mut s = cat4(a, b, c, d);
    s.append(e);
    s
}

pub(crate) fn cat7(a: &str, b: &str, c: &str, d: &str, e: &str, f: &str, g: &str) -> (r: String)
    ensures
        r@ == a@ + b@ + c@ + d@ + e@ + f@ + g@,
{
    let mut s = cat5(a, b, c, d, e);
    s.append(f);
    s.append(g);
    s
}

pub(crate) fn cat6(a: &str, b: &str, c: &str, d: &str, e: &str, f: &str) -> (r: String)
    ensures
        r@ == a@ + b@ + c@ + d@ + e@ + f@,
{
    let mut s = cat5(a, b, c, d, e);
    s.append(f);
    s
}

/// A string of one character.
pub(crate) fn char_text(c: char) -> (r: String)
    ensures
        r@ == seq![c],
{
    let mut r = String::new();
    push(&mut r, c);
    r
}

/// The characters of a string, one by one.
pub(crate) fn chars(s: &str) -> (v: Vec<char>)
    ensures
        v@ == s@,
{
    let mut v: Vec<char> = Vec::new();
    for c in it: s.chars()
        invariant
            v@ == it.seq().take(it.index() as int),
            it.seq() == s@,
    {
        v.push(c);
    }
    v
}

/// The characters from `from` up to `to`, as a string.
pub(crate) fn slice(v: &Vec<char>, from: usize, to: usize) -> (r: String)
    requires
        from <= to <= v@.len(),
    ensures
        r@ == v@.subrange(from as int, to as int),
{
    let mut r = String::new();
    let mut i: usize = from;
    while i < to
        invariant
            from <= i <= to <= v@.len(),
            r@ == v@.subrange(from as int, i as int),
        decreases to - i,
    {
        push(&mut r, v[i]);
        i += 1;
    }
    r
}

/// A string of the given characters.
pub(crate) fn string(v: &Vec<char>) -> (r: String)
    ensures
        r@ == v@,
{
    let r = slice(v, 0, v.len());
    r
}

/// The first position at or after `from` that holds `c`, or the length.
pub(crate) fn find(v: &Vec<char>, c: char, from: usize) -> (r: usize)
    requires
        from <= v@.len(),
    ensures
        r == find_from(v@, c, from as int),
        from <= r <= v@.len(),
        r < v@.len() ==> v@[r as int] == c,
{
    let mut i: usize = from;
    while i < v.len() && v[i] != c
        invariant
            from <= i <= v@.len(),
            find_from(v@, c, from as int) == find_from(v@, c, i as int),
        decreases v.len() - i,
    {
        i += 1;
    }
    i
}

/// The last position that holds `c`.
pub(crate) fn find_last(v: &Vec<char>, c: char) -> (r: Option<usize>)
    ensures
        match r {
            Some(at) => at < v@.len() && rfind(v@, c, v@.len() as int) == at,
            None => rfind(v@, c, v@.len() as int) == -1,
        },
{
    let mut i: usize = v.len();
    while i > 0
        invariant
            i <= v@.len(),
            rfind(v@, c, v@.len() as int) == rfind(v@, c, i as int),
        decreases i,
    {
        if v[i - 1] == c {
            return Some(i - 1);
        }
        i -= 1;
    }
    None
}

/// The parts before and after the first `c`.
pub(crate) fn cut_once(s: &str, c: char) -> (r: Option<(String, String)>)
    ensures
        match r {
            Some((a, b)) => split_once(s@, c) == Some((a@, b@)),
            None => split_once(s@, c) is None,
        },
{
    let v = chars(s);
    let at = find(&v, c, 0);
    if at < v.len() {
        Some((slice(&v, 0, at), slice(&v, at + 1, v.len())))
    } else {
        None
    }
}

/// The strings put together with `sep` between them.
pub(crate) fn join_texts(parts: &Vec<String>, sep: &str) -> (r: String)
    ensures
        r@ == join(texts(parts@), sep@),
{
    let mut out = String::new();
    let mut i: usize = 0;
    proof {
        assert(texts(parts@).take(0) =~= seq![]);
    }
    while i < parts.len()
        invariant
            i <= parts@.len(),
            out@ == join(texts(parts@).take(i as int), sep@),
        decreases parts.len() - i,
    {
        proof {
            assert(texts(parts@).take(i + 1).drop_last() =~= texts(parts@).take(i as int));
        }
        if i > 0 {
            out.append(sep);
            out.append(parts[i].as_str());
        } else {
            out = parts[i].clone();
        }
        i += 1;
    }
    proof {
        assert(texts(parts@).take(i as int) =~= texts(parts@));
    }
    out
}

/// The characters without those equal to `c` at either end.
pub(crate) fn trim_both(v: &Vec<char>, c: char) -> (r: Vec<char>)
    ensures
        r@ == trim_start(trim_end(v@, c), c),
{
    let mut to: usize = v.len();
    proof {
        assert(v@.take(to as int) =~= v@);
    }
    while to > 0 && v[to - 1] == c
        invariant
            to <= v@.len(),
            trim_end(v@, c) == trim_end(v@.take(to as int), c),
        decreases to,
    {
        proof {
            assert(v@.take(to as int).drop_last() =~= v@.take(to - 1));
        }
        to -= 1;
    }
    let ghost kept = v@.take(to as int);
    let mut from: usize = 0;
    proof {
        assert(kept.skip(0) =~= kept);
    }
    while from < to && v[from] == c
        invariant
            from <= to <= v@.len(),
            kept == v@.take(to as int),
            trim_start(kept, c) == trim_start(kept.skip(from as int), c),
        decreases to - from,
    {
        proof {
            assert(kept.skip(from as int).skip(1) =~= kept.skip(from + 1));
        }
        from += 1;
    }
    let mut out: Vec<char> = Vec::new();
    let mut i: usize = from;
    while i < to
        invariant
            from <= i <= to <= v@.len(),
            out@ == v@.subrange(from as int, i as int),
        decreases to - i,
    {
        out.push(v[i]);
        i += 1;
    }
    proof {
        assert(out@ =~= kept.skip(from as int));
    }
    out
}

/// Whether `a` comes before `b` in the order of their characters.
pub(crate) fn precedes(a: &str, b: &str) -> (r: bool)
    ensures
        r == before(a@, b@),
{
    let x = chars(a);
    let y = chars(b);
    let mut i: usize = 0;
    proof {
        assert(x@.skip(0) =~= x@);
        assert(y@.skip(0) =~= y@);
    }
    while i < x.len() && i < y.len()
        invariant
            i <= x@.len(),
            i <= y@.len(),
            x@ == a@,
            y@ == b@,
            before(x@, y@) == before(x@.skip(i as int), y@.skip(i as int)),
        decreases x.len() - i,
    {
        proof {
            assert(x@.skip(i as int)[0] == x@[i as int]);
            assert(y@.skip(i as int)[0] == y@[i as int]);
        }
        if x[i] != y[i] {
            return x[i] < y[i];
        }
        proof {
            assert(x@.skip(i as int).skip(1) =~= x@.skip(i + 1));
            assert(y@.skip(i as int).skip(1) =~= y@.skip(i + 1));
        }
        i += 1;
    }
    i < y.len()
}

/// The inside of a double-quoted string.
pub(crate) fn escaped(s: &str) -> (r: String)
    ensures
        r@ == escape(s@),
{
    let v = chars(s);
    let mut out = String::new();
    let mut i: usize = 0;
    while i < v.len()
        invariant
            i <= v@.len(),
            out@ == escape(v@.take(i as int)),
        decreases v.len() - i,
    {
        let ghost before = out@;
        proof {
            assert(v@.take(i + 1).drop_last() =~= v@.take(i as int));
        }
        if v[i] == '\\' || v[i] == '"' {
            push(&mut out, '\\');
        }
        push(&mut out, v[i]);
        proof {
            assert(out@ =~= before + escape_char(v@[i as int]));
        }
        i += 1;
    }
    proof {
        assert(v@.take(i as int) =~= v@);
    }
    out
}

/// A double-quoted string.
pub(crate) fn quoted(s: &str) -> (r: String)
    ensures
        r@ == quote(s@),
{
    let mut r = char_text('"');
    r.append(escaped(s).as_str());
    r.append(char_text('"').as_str());
    r
}

/// `s` with every `::` written as `by` instead.
pub(crate) fn recoloned(s: &str, by: char) -> (r: String)
    ensures
        r@ == replace_colons(s@, by, 0),
{
    let v = chars(s);
    let mut out = String::new();
    let mut i: usize = 0;
    proof {
        assert(out@ + replace_colons(v@, by, 0) =~= replace_colons(v@, by, 0));
    }
    while i < v.len()
        invariant
            i <= v@.len(),
            v@ == s@,
            out@ + replace_colons(v@, by, i as int) == replace_colons(v@, by, 0),
        decreases v.len() - i,
    {
        let ghost before = out@;
        if v[i] == ':' && v.len() - i > 1 && v[i + 1] == ':' {
            push(&mut out, by);
            proof {
                assert(out@ + replace_colons(v@, by, i + 2) =~= before + (seq![by]
                    + replace_colons(v@, by, i + 2)));
            }
            i += 2;
        } else {
            push(&mut out, v[i]);
            proof {
                assert(out@ + replace_colons(v@, by, i + 1) =~= before + (seq![v@[i as int]]
                    + replace_colons(v@, by, i + 1)));
            }
            i += 1;
        }
    }
    proof {
        assert(out@ + replace_colons(v@, by, i as int) =~= out@);
    }
    out
}

/// The characters without those equal to `c`.
pub(crate) fn removed(v: &Vec<char>, c: char) -> (r: Vec<char>)
    ensures
        r@ == without(v@, c),
{
    let mut out: Vec<char> = Vec::new();
    let mut i: usize = 0;
    while i < v.len()
        invariant
            i <= v@.len(),
            out@ == without(v@.take(i as int), c),
        decreases v.len() - i,
    {
        proof {
            assert(v@.take(i + 1).drop_last() =~= v@.take(i as int));
        }
        if v[i] != c {
            out.push(v[i]);
        }
        i += 1;
    }
    proof {
        assert(v@.take(i as int) =~= v@);
    }
    out
}

/// The characters without those equal to `c` at the end.
pub(crate) fn trimmed_end(v: &Vec<char>, c: char) -> (r: Vec<char>)
    ensures
        r@ == trim_end(v@, c),
{
    let mut to: usize = v.len();
    proof {
        assert(v@.take(to as int) =~= v@);
    }
    while to > 0 && v[to - 1] == c
        invariant
            to <= v@.len(),
            trim_end(v@, c) == trim_end(v@.take(to as int), c),
        decreases to,
    {
        proof {
            assert(v@.take(to as int).drop_last() =~= v@.take(to - 1));
        }
        to -= 1;
    }
    let r = chars(slice(v, 0, to).as_str());
    proof {
        assert(r@ =~= v@.take(to as int));
    }
    r
}

/// The characters without the white space around them.
pub(crate) fn trimmed(v: &Vec<char>) -> (r: String)
    ensures
        r@ == trim(v@),
{
    let mut to: usize = v.len();
    proof {
        assert(v@.subrange(0, to as int) =~= v@);
    }
    while to > 0 && char_is_white(v[to - 1])
        invariant
            to <= v@.len(),
            trim(v@) == trim(v@.subrange(0, to as int)),
        decreases to,
    {
        proof {
            let kept = v@.subrange(0, to as int);
            assert(kept.last() == v@[to - 1]);
            assert(kept.drop_last() =~= v@.subrange(0, to - 1));
        }
        to -= 1;
    }
    let mut from: usize = 0;
    while from < to && char_is_white(v[from])
        invariant
            from <= to <= v@.len(),
            to > 0 ==> !is_white(v@[to - 1]),
            trim(v@) == trim(v@.subrange(from as int, to as int)),
        decreases to - from,
    {
        proof {
            let kept = v@.subrange(from as int, to as int);
            assert(kept.last() == v@[to - 1]);
            assert(kept[0] == v@[from as int]);
            assert(kept.skip(1) =~= v@.subrange(from + 1, to as int));
        }
        from += 1;
    }
    slice(v, from, to)
}

/// The parts of the characters, cut at every `c`.
pub(crate) fn split(v: &Vec<char>, c: char) -> (r: Vec<String>)
    ensures
        texts(r@) == split_from(v@, c, 0),
{
    let mut out: Vec<String> = Vec::new();
    let mut from: usize = 0;
    proof {
        assert(texts(out@) + split_from(v@, c, 0) =~= split_from(v@, c, 0));
    }
    loop
        invariant
            from <= v@.len(),
            texts(out@) + split_from(v@, c, from as int) == split_from(v@, c, 0),
        decreases v.len() - from,
    {
        let at = find(v, c, from);
        let part = slice(v, from, at);
        let ghost before = texts(out@);
        let ghost shown = part@;
        out.push(part);
        proof {
            assert(texts(out@) =~= before.push(shown));
        }
        if at >= v.len() {
            proof {
                assert(shown =~= v@.skip(from as int));
                assert(texts(out@) =~= before + split_from(v@, c, from as int));
            }
            return out;
        }
        proof {
            assert(texts(out@) + split_from(v@, c, at + 1) =~= before + (seq![shown]
                + split_from(v@, c, at + 1)));
        }
        from = at + 1;
    }
}

pub(crate) fn to_digit_char(d: u64) -> (c: char)
    requires
        d < 10,
    ensures
        c == digit_char(d as int),
{
    match d {
        1 => '1',
        2 => '2',
        3 => '3',
        4 => '4',
        5 => '5',
        6 => '6',
        7 => '7',
        8 => '8',
        9 => '9',
        _ => '0',
    }
}

/// A number in decimal.
pub(crate) fn show_u64(n: u64) -> (r: String)
    ensures
        r@ == nat_text(n as nat),
    decreases n,
{
    let mut r = if n < 10 {
        String::new()
    } else {
        show_u64(n / 10)
    };
    push(&mut r, to_digit_char(n % 10));
    r
}

/// The number after `n` in decimal.
pub(crate) fn show_next(n: u64) -> (r: String)
    ensures
        r@ == nat_text((n + 1) as nat),
    decreases n,
{
    if n % 10 == 9 {
        let mut r = show_next(n / 10);
        push(&mut r, '0');
        r
    } else {
        let mut r = if n < 10 {
            String::new()
        } else {
            show_u64(n / 10)
        };
        push(&mut r, to_digit_char(n % 10 + 1));
        r
    }
}

pub(crate) fn show_u32(n: u32) -> (r: String)
    ensures
        r@ == nat_text(n as nat),
{
    show_u64(n as u64)
}

/// A negative number in decimal, without its sign.
pub(crate) fn show_size(n: i32) -> (r: String)
    requires
        n < 0,
    ensures
        r@ == nat_text((-n) as nat),
{
    show_u64((-(n as i64)) as u64)
}

/// A signed number in decimal.
pub(crate) fn show_i32(n: i32) -> (r: String)
    ensures
        r@ == int_text(n as int),
{
    if n < 0 {
        let mut r = String::new();
        push(&mut r, '-');
        r.append(show_u64((-(n as i64)) as u64).as_str());
        r
    } else {
        show_u64(n as u64)
    }
}

pub(crate) fn show_bool(b: bool) -> (r: String)
    ensures
        r@ == bool_text(b),
{
    if b {
        own("true")
    } else {
        own("false")
    }
}

} // verus!

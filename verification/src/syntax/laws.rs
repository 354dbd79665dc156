//! What holds of every text that is read into tokens.

use vstd::prelude::*;

use crate::syntax::lexer::{
    at, comment_end, group_end, lemma_offset_grows, lemma_path_reaches_colon, lemma_run_end_bounds,
    lexed, number_at, path_end, punct_at, radix_at, resource_end, resource_follows, run_end,
    selector_at, string_from, token_at, tokens_from, trivia_end, trivium_end, unescaped, word_at,
    Class,
};
use crate::syntax::model::{Fault, Token, TokenKind};
use crate::text::{escape, escape_char, is_digit, is_letter, offset, quote};

verus! {

/// Whether `b` is `a` with more after it.
#[verifier::opaque]
pub open spec fn grows<T>(a: Seq<T>, b: Seq<T>) -> bool {
    a.len() <= b.len() && b.take(a.len() as int) == a
}

proof fn grows_to_itself<T>(a: Seq<T>)
    ensures
        grows(a, a),
{
    reveal(grows);
    assert(a.take(a.len() as int) =~= a);
}

proof fn grows_by_one<T>(a: Seq<T>, x: T)
    ensures
        grows(a, a.push(x)),
{
    reveal(grows);
    assert(a.push(x).take(a.len() as int) =~= a);
}

proof fn grows_further<T>(a: Seq<T>, b: Seq<T>, c: Seq<T>)
    requires
        grows(a, b),
        grows(b, c),
    ensures
        grows(a, c),
{
    reveal(grows);
    assert(c.take(a.len() as int) =~= b.take(a.len() as int));
}

pub(crate) proof fn grows_facts_for<T>()
    ensures
        forall|a: Seq<T>| #[trigger] grows(a, a),
        forall|a: Seq<T>, x: T| grows(a, #[trigger] a.push(x)),
        forall|a: Seq<T>, b: Seq<T>, c: Seq<T>|
            #[trigger] grows(a, b) && #[trigger] grows(b, c) ==> grows(a, c),
{
    assert forall|a: Seq<T>| #[trigger] grows(a, a) by {
        grows_to_itself(a);
    }
    assert forall|a: Seq<T>, x: T| grows(a, #[trigger] a.push(x)) by {
        grows_by_one(a, x);
    }
    assert forall|a: Seq<T>, b: Seq<T>, c: Seq<T>| #[trigger] grows(a, b) && #[trigger] grows(
        b,
        c,
    ) implies grows(a, c) by {
        grows_further(a, b, c);
    }
}

// Every step goes forward.

proof fn lemma_comment_goes_forward(s: Seq<char>, i: int, depth: nat)
    requires
        0 <= i <= s.len(),
    ensures
        i <= comment_end(s, i, depth).0 <= s.len(),
    decreases s.len() - i,
{
    if i < s.len() {
        if at(s, i, '/') && at(s, i + 1, '*') {
            lemma_comment_goes_forward(s, i + 2, depth + 1);
        } else if at(s, i, '*') && at(s, i + 1, '/') {
            if depth > 1 {
                lemma_comment_goes_forward(s, i + 2, (depth - 1) as nat);
            }
        } else {
            lemma_comment_goes_forward(s, i + 1, depth);
        }
    }
}

proof fn lemma_trivia_go_forward(s: Seq<char>, i: int)
    requires
        0 <= i <= s.len(),
    ensures
        i <= trivia_end(s, i).0 <= s.len(),
    decreases s.len() - i,
{
    lemma_run_end_bounds(s, i, Class::Space);
    let a = run_end(s, i, Class::Space);
    lemma_run_end_bounds(s, a, Class::Line);
    lemma_comment_goes_forward(s, a, 0);
    let b = trivium_end(s, i).0;
    if i < b <= s.len() {
        lemma_trivia_go_forward(s, b);
    }
}

proof fn lemma_group_goes_forward(s: Seq<char>, i: int, depth: int, quote: Option<char>)
    requires
        0 <= i <= s.len(),
    ensures
        i <= group_end(s, i, depth, quote).0 <= s.len(),
    decreases s.len() - i,
{
    if i < s.len() {
        let c = s[i];
        match quote {
            Some(q) => if c == '\\' {
                if i + 1 < s.len() {
                    lemma_group_goes_forward(s, i + 2, depth, quote);
                }
            } else if c == q {
                lemma_group_goes_forward(s, i + 1, depth, None);
            } else {
                lemma_group_goes_forward(s, i + 1, depth, quote);
            },
            None => if c == '"' || c == '\'' {
                lemma_group_goes_forward(s, i + 1, depth, Some(c));
            } else if c == '[' || c == '{' {
                lemma_group_goes_forward(s, i + 1, depth + 1, None);
            } else if c == ']' || c == '}' {
                if depth - 1 != 0 {
                    lemma_group_goes_forward(s, i + 1, depth - 1, None);
                }
            } else {
                lemma_group_goes_forward(s, i + 1, depth, None);
            },
        }
    }
}

proof fn lemma_string_goes_forward(s: Seq<char>, start: int, i: int, out: Seq<char>)
    requires
        0 <= i <= s.len(),
    ensures
        i <= string_from(s, start, i, out).0 <= s.len(),
    decreases s.len() - i,
{
    if i < s.len() && s[i] != '"' {
        if s[i] == '\\' {
            if i + 1 < s.len() {
                match unescaped(s[i + 1]) {
                    Some(c) => lemma_string_goes_forward(s, start, i + 2, out.push(c)),
                    None => lemma_string_goes_forward(s, start, i + 2, out),
                }
            }
        } else {
            lemma_string_goes_forward(s, start, i + 1, out.push(s[i]));
        }
    }
}

proof fn lemma_path_goes_forward(s: Seq<char>, i: int, class: Class)
    requires
        0 <= i <= s.len(),
    ensures
        i <= path_end(s, i, class) <= s.len(),
    decreases s.len() - i,
{
    if at(s, i, '/') {
        lemma_run_end_bounds(s, i + 1, class);
        lemma_path_goes_forward(s, run_end(s, i + 1, class), class);
    }
}

proof fn lemma_resource_goes_forward(s: Seq<char>, i: int)
    requires
        0 <= i <= s.len(),
        resource_follows(s, i),
    ensures
        i < resource_end(s, i) <= s.len(),
{
    reveal(resource_end);
    lemma_path_goes_forward(s, i, Class::Word);
    lemma_path_reaches_colon(s, i);
    let colon = path_end(s, i, Class::Word);
    lemma_run_end_bounds(s, colon + 1, Class::ResourcePath);
    let run = run_end(s, colon + 1, Class::ResourcePath);
    lemma_path_goes_forward(s, run, Class::ResourcePath);
    let path = path_end(s, run, Class::ResourcePath);
    if at(s, path, '[') {
        lemma_group_goes_forward(s, path + 1, 1, None);
    }
}

/// Reading always goes forward: whatever begins at a character, token or mistake, ends
/// after it and within the text. So every text is read to its end.
pub proof fn lemma_reading_goes_forward(s: Seq<char>, i: int)
    requires
        0 <= i < s.len(),
    ensures
        i < token_at(s, i).0 <= s.len(),
{
    reveal(token_at);
    reveal(selector_at);
    reveal(number_at);
    reveal(word_at);
    reveal(punct_at);
    if at(s, i + 2, '[') {
        lemma_group_goes_forward(s, i + 3, 1, None);
    }
    lemma_string_goes_forward(s, i, i + 1, seq![]);
    let from = radix_at(s, i).1;
    lemma_run_end_bounds(s, from, Class::Word);
    lemma_run_end_bounds(s, i, Class::Word);
    lemma_run_end_bounds(s, i + 1, Class::Word);
    if is_digit(s[i]) || is_letter(s[i]) || s[i] == '_' {
        assert(Class::Word.has(s[i]));
        assert(run_end(s, i, Class::Word) == run_end(s, i + 1, Class::Word));
        let end = run_end(s, i, Class::Word);
        if resource_follows(s, end) {
            lemma_resource_goes_forward(s, end);
        }
    }
}

// The spans of tokens.

/// Whether each token takes some of the text between two offsets, one after the other.
pub open spec fn in_order(tokens: Seq<Token>, from: nat, to: nat) -> bool {
    &&& forall|i: int|
        0 <= i < tokens.len() ==> from <= (#[trigger] tokens[i]).span.start < tokens[i].span.end
            <= to
    &&& forall|i: int, j: int|
        0 <= i < j < tokens.len() ==> (#[trigger] tokens[i]).span.end <= (
        #[trigger] tokens[j]).span.start
}

proof fn lemma_tokens_from_in_order(s: Seq<char>, i: int)
    requires
        0 <= i <= s.len(),
        offset(s, s.len() as int) <= usize::MAX,
    ensures
        in_order(tokens_from(s, i).0, offset(s, i), offset(s, s.len() as int)),
    decreases s.len() - i,
{
    lemma_trivia_go_forward(s, i);
    let j = trivia_end(s, i).0;
    if j < s.len() {
        lemma_reading_goes_forward(s, j);
        let (k, kind, found) = token_at(s, j);
        lemma_tokens_from_in_order(s, k);
        lemma_offset_grows(s, i, j);
        lemma_offset_grows(s, j, k);
        lemma_offset_grows(s, k, s.len() as int);
    }
}

/// Tokens come in the order of the text, none of them empty, no two of them sharing
/// anything, and all of them inside the text.
pub proof fn lemma_tokens_are_in_order(s: Seq<char>)
    requires
        offset(s, s.len() as int) <= usize::MAX,
    ensures
        in_order(lexed(s).0, 0, offset(s, s.len() as int)),
{
    lemma_tokens_from_in_order(
        s,
        if at(s, 0, '\u{feff}') {
            1
        } else {
            0
        },
    );
}

// Quoted text.

proof fn lemma_escape_goes_on(s: Seq<char>, k: int)
    requires
        0 <= k < s.len(),
    ensures
        escape(s.take(k + 1)) == escape(s.take(k)) + escape_char(s[k]),
        escape(s.take(k + 1)).len() <= escape(s).len(),
        escape(s).take(escape(s.take(k + 1)).len() as int) == escape(s.take(k + 1)),
    decreases s.len(),
{
    assert(s.take(k + 1).drop_last() =~= s.take(k));
    assert(s.take(k + 1).last() == s[k]);
    if k + 1 == s.len() {
        assert(s.take(k + 1) =~= s);
        assert(escape(s).take(escape(s).len() as int) =~= escape(s));
    } else {
        lemma_escape_goes_on(s.drop_last(), k);
        assert(s.drop_last().take(k + 1) =~= s.take(k + 1));
        let n = escape(s.take(k + 1)).len() as int;
        assert(escape(s).take(n) =~= escape(s.drop_last()).take(n));
    }
}

proof fn lemma_quoted_text_is_read_from(s: Seq<char>, k: int)
    requires
        0 <= k <= s.len(),
    ensures
        string_from(quote(s), 0, (1 + escape(s.take(k)).len()) as int, s.take(k)) == (
            quote(s).len() as int,
            Some(s),
            Seq::<Fault>::empty(),
        ),
    decreases s.len() - k,
{
    let q = quote(s);
    let i = (1 + escape(s.take(k)).len()) as int;
    if k == s.len() {
        assert(s.take(k) =~= s);
        assert(q[i] == '"');
    } else {
        lemma_escape_goes_on(s, k);
        lemma_quoted_text_is_read_from(s, k + 1);
        let read = escape(s.take(k + 1));
        assert forall|j: int| 0 <= j < read.len() implies q[1 + j] == read[j] by {
            assert(escape(s).take(read.len() as int)[j] == escape(s)[j]);
        }
        assert(q[i] == read[i - 1]);
        assert(read[i - 1] == escape_char(s[k])[0]);
        assert(s.take(k).push(s[k]) =~= s.take(k + 1));
        if s[k] == '\\' || s[k] == '"' {
            assert(q[i + 1] == read[i]);
            assert(read[i] == escape_char(s[k])[1]);
        }
    }
}

/// Text that is quoted is read back as it was, whatever it holds.
pub proof fn lemma_quoted_text_is_read_back(s: Seq<char>)
    ensures
        token_at(quote(s), 0) == (
            quote(s).len() as int,
            Some(TokenKind::Str(s)),
            Seq::<Fault>::empty(),
        ),
{
    reveal(token_at);
    lemma_quoted_text_is_read_from(s, 0);
    assert(s.take(0) =~= seq![]);
    assert(escape(s.take(0)).len() == 0);
    assert(quote(s)[0] == '"');
}

/// Different texts are quoted differently.
pub proof fn lemma_quotes_differ(a: Seq<char>, b: Seq<char>)
    ensures
        quote(a) == quote(b) <==> a == b,
{
    lemma_quoted_text_is_read_back(a);
    lemma_quoted_text_is_read_back(b);
}

} // verus!

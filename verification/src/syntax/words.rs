//! Text that is written word by word is read back word by word, and so are the expressions
//! written that way.

use vstd::prelude::*;

use crate::syntax::grammar::{expr, Reading};
use crate::syntax::lexer::{
    at, is_reserved, is_word, keyword_of, lexed, number_at, number_of, punct_of_one, punct_of_two,
    radix_at, resource_follows, run_end, segments_end, token_at, tokens_from, trivia_end,
    trivium_end, word_at, Class, Punct,
};
use crate::syntax::model::{Expr, Fault, Token, TokenKind};
use crate::syntax::operators::{lemma_one_character, lemma_two_characters, spells};
use crate::syntax::printing::{
    lemma_expressions_are_read_back, next_are, past, tree, writable, written, Tree,
};
use crate::text::{digits_value, is_digit, is_letter, lemma_digits, nat_text, without};

verus! {

/// Whether a word is a name: no keyword, and no word that is held back.
pub open spec fn is_name(w: Seq<char>) -> bool {
    &&& w.len() > 0
    &&& is_letter(w[0]) || w[0] == '_' && w.len() > 1
    &&& forall|i: int| 0 <= i < w.len() ==> is_word(#[trigger] w[i])
    &&& keyword_of(w) is None
    &&& !is_reserved(w)
}

/// How punctuation that stands in expressions is written.
pub open spec fn mark(p: Punct) -> Option<Seq<char>> {
    match p {
        Punct::Plus => Some(seq!['+']),
        Punct::Minus => Some(seq!['-']),
        Punct::Star => Some(seq!['*']),
        Punct::Slash => Some(seq!['/']),
        Punct::Percent => Some(seq!['%']),
        Punct::EqEq => Some(seq!['=', '=']),
        Punct::Ne => Some(seq!['!', '=']),
        Punct::Lt => Some(seq!['<']),
        Punct::Le => Some(seq!['<', '=']),
        Punct::Gt => Some(seq!['>']),
        Punct::Ge => Some(seq!['>', '=']),
        Punct::AndAnd => Some(seq!['&', '&']),
        Punct::OrOr => Some(seq!['|', '|']),
        Punct::Bang => Some(seq!['!']),
        Punct::Eq => Some(seq!['=']),
        Punct::PlusEq => Some(seq!['+', '=']),
        Punct::MinusEq => Some(seq!['-', '=']),
        Punct::StarEq => Some(seq!['*', '=']),
        Punct::SlashEq => Some(seq!['/', '=']),
        Punct::PercentEq => Some(seq!['%', '=']),
        Punct::Dot => Some(seq!['.']),
        Punct::DotDot => Some(seq!['.', '.']),
        Punct::Question => Some(seq!['?']),
        Punct::LParen => Some(seq!['(']),
        Punct::RParen => Some(seq![')']),
        Punct::LBracket => Some(seq!['[']),
        Punct::RBracket => Some(seq![']']),
        _ => None,
    }
}

/// How a token is written, if it is a name, a number or punctuation.
pub open spec fn word(kind: TokenKind) -> Option<Seq<char>> {
    match kind {
        TokenKind::Ident(w) => if is_name(w) {
            Some(w)
        } else {
            None
        },
        TokenKind::Int(n) => if n >= 0 {
            Some(nat_text(n as nat))
        } else {
            None
        },
        TokenKind::Punct(p) => mark(p),
        _ => None,
    }
}

/// Words with a space after each.
pub open spec fn line(kinds: Seq<TokenKind>) -> Seq<char>
    decreases kinds.len(),
{
    if kinds.len() == 0 {
        seq![]
    } else {
        word(kinds[0])->0 + (seq![' '] + line(kinds.skip(1)))
    }
}

/// Whether a text is read as that token wherever a space follows it.
pub open spec fn is_read_as(text: Seq<char>, kind: TokenKind) -> bool {
    forall|s: Seq<char>, i: int|
        #![trigger token_at(s, i)]
        0 <= i && i + text.len() < s.len() && s.subrange(i, i + text.len()) == text && s[i
            + text.len()] == ' ' ==> token_at(s, i) == (
            i + text.len(),
            Some(kind),
            Seq::<Fault>::empty(),
        )
}

proof fn lemma_run(s: Seq<char>, i: int, n: int)
    requires
        0 <= i <= n < s.len(),
        forall|j: int| i <= j < n ==> is_word(#[trigger] s[j]),
        s[n] == ' ',
    ensures
        run_end(s, i, Class::Word) == n,
    decreases n - i,
{
    if i < n {
        lemma_run(s, i + 1, n);
    }
}

proof fn lemma_names(w: Seq<char>)
    requires
        is_name(w),
    ensures
        is_read_as(w, TokenKind::Ident(w)),
{
    reveal(token_at);
    reveal(word_at);
    assert forall|s: Seq<char>, i: int|
        #![trigger token_at(s, i)]
        0 <= i && i + w.len() < s.len() && s.subrange(i, i + w.len()) == w && s[i + w.len()]
            == ' ' implies token_at(s, i) == (
        i + w.len(),
        Some(TokenKind::Ident(w)),
        Seq::<Fault>::empty(),
    ) by {
        let n = i + w.len();
        assert forall|j: int| i <= j < n implies is_word(#[trigger] s[j]) by {
            assert(s.subrange(i, n)[j - i] == s[j]);
            assert(is_word(w[j - i]));
        }
        assert(s.subrange(i, n)[0] == s[i]);
        if w.len() > 1 {
            assert(is_word(s[i + 1]));
        }
        lemma_run(s, i, n);
        assert(segments_end(s, n) == Some(n));
        assert(!resource_follows(s, n));
    }
}

/// A number in decimal is what its digits stand for.
proof fn lemma_number_of(text: Seq<char>)
    requires
        forall|i: int| 0 <= i < text.len() ==> is_digit(#[trigger] text[i]),
    ensures
        number_of(text, 10) == Some(digits_value(text) as int),
        without(text, '_') == text,
    decreases text.len(),
{
    if text.len() > 0 {
        let most = text.drop_last();
        assert forall|i: int| 0 <= i < most.len() implies is_digit(#[trigger] most[i]) by {
            assert(is_digit(text[i]));
        }
        lemma_number_of(most);
        assert(is_digit(text.last()));
        assert(most.push(text.last()) =~= text);
    } else {
        assert(text =~= seq![]);
    }
}

proof fn lemma_numbers(k: i32)
    requires
        k >= 0,
    ensures
        is_read_as(nat_text(k as nat), TokenKind::Int(k)),
{
    reveal(token_at);
    reveal(number_at);
    let text = nat_text(k as nat);
    lemma_digits(k as nat);
    lemma_number_of(text);
    assert forall|s: Seq<char>, i: int|
        #![trigger token_at(s, i)]
        0 <= i && i + text.len() < s.len() && s.subrange(i, i + text.len()) == text && s[i
            + text.len()] == ' ' implies token_at(s, i) == (
        i + text.len(),
        Some(TokenKind::Int(k)),
        Seq::<Fault>::empty(),
    ) by {
        let n = i + text.len();
        assert forall|j: int| i <= j < n implies is_digit(#[trigger] s[j]) by {
            assert(s.subrange(i, n)[j - i] == s[j]);
            assert(is_digit(text[j - i]));
        }
        assert(is_digit(s[i]));
        if i + 1 < n {
            assert(is_digit(s[i + 1]));
        } else {
            assert(s[i + 1] == ' ');
        }
        lemma_run(s, i, n);
        assert(radix_at(s, i) == (10int, i));
    }
}

/// A token is read back from how it is written.
proof fn lemma_words(kind: TokenKind)
    requires
        word(kind) is Some,
    ensures
        is_read_as(word(kind)->0, kind),
        ({
            let text = word(kind)->0;
            &&& text.len() > 0
            &&& text[0] < '\x7f'
            &&& !crate::text::is_space(text[0])
            &&& text[0] == '/' ==> text.len() == 1 || text[1] == '='
        }),
{
    match kind {
        TokenKind::Ident(w) => {
            lemma_names(w);
            assert(is_word(w[0]));
        },
        TokenKind::Int(n) => {
            lemma_numbers(n);
            lemma_digits(n as nat);
            assert(is_digit(nat_text(n as nat)[0]));
        },
        TokenKind::Punct(p) => {
            reveal(punct_of_one);
            reveal(punct_of_two);
            let text = mark(p)->0;
            if text.len() == 1 {
                lemma_one_character(text[0], p);
                assert(text =~= seq![text[0]]);
            } else {
                lemma_two_characters(text[0], text[1], p);
                assert(text =~= seq![text[0], text[1]]);
            }
            assert(spells(text, p));
        },
        _ => {},
    }
}

pub open spec fn kinds_of(toks: Seq<Token>) -> Seq<TokenKind> {
    Seq::new(toks.len(), |i: int| toks[i].kind)
}

pub open spec fn all_words(kinds: Seq<TokenKind>) -> bool {
    forall|i: int| 0 <= i < kinds.len() ==> word(#[trigger] kinds[i]) is Some
}

proof fn lemma_tail(s: Seq<char>, i: int, rest: Seq<char>)
    requires
        0 <= i <= s.len(),
        s.skip(i) == rest,
    ensures
        rest.len() == s.len() - i,
        forall|j: int| 0 <= j < rest.len() ==> #[trigger] s[i + j] == rest[j],
{
    let tail = s.subrange(i, s.len() as int);
    assert(tail =~= rest);
    assert(tail.len() == s.len() - i);
    assert forall|j: int| 0 <= j < rest.len() implies #[trigger] s[i + j] == rest[j] by {
        assert(tail[j] == s[i + j]);
    }
}

/// There is nothing to skip in front of a word.
proof fn lemma_no_trivia(s: Seq<char>, i: int, kinds: Seq<TokenKind>)
    requires
        0 <= i <= s.len(),
        s.skip(i) == line(kinds),
        all_words(kinds),
    ensures
        trivia_end(s, i) == (i, Seq::<Fault>::empty()),
        run_end(s, i, Class::Space) == i,
        !(at(s, i, '/') && (at(s, i + 1, '/') || at(s, i + 1, '*'))),
        kinds.len() == 0 <==> i == s.len(),
        i < s.len() ==> s[i] < '\x7f',
{
    lemma_tail(s, i, line(kinds));
    if kinds.len() > 0 {
        lemma_words(kinds[0]);
        let text = word(kinds[0])->0;
        let rest = line(kinds);
        let n = text.len() as int;
        lemma_tail(s, i, rest);
        assert(rest[0] == text[0]);
        assert(s[i + 0] == rest[0]);
        assert(rest[n] == ' ');
        assert(s[i + n] == rest[n]);
        if n > 1 {
            assert(rest[1] == text[1]);
            assert(s[i + 1] == rest[1]);
        }
    }
    assert(trivium_end(s, i) == (i, Seq::<Fault>::empty()));
}

/// Words with a space after each are read as those words.
pub proof fn lemma_lines_are_read_back(s: Seq<char>, i: int, kinds: Seq<TokenKind>)
    requires
        0 <= i <= s.len(),
        s.skip(i) == line(kinds),
        all_words(kinds),
    ensures
        kinds_of(tokens_from(s, i).0) == kinds,
        tokens_from(s, i).1 == Seq::<Fault>::empty(),
    decreases kinds.len(),
{
    lemma_no_trivia(s, i, kinds);
    if kinds.len() == 0 {
        assert(kinds_of(tokens_from(s, i).0) =~= kinds);
    } else {
        let kind = kinds[0];
        let text = word(kind)->0;
        let rest = kinds.skip(1);
        lemma_words(kind);
        let k = i + text.len();
        let tail = line(kinds);
        let n = text.len() as int;
        lemma_tail(s, i, tail);
        let l = line(rest);
        assert(tail.len() == n + 1 + l.len());
        assert(s.subrange(i, k) =~= text) by {
            assert forall|j: int| 0 <= j < n implies s.subrange(i, k)[j] == text[j] by {
                assert(s[i + j] == tail[j]);
            }
        }
        assert(tail[n] == ' ');
        assert(s[i + n] == tail[n]);
        assert(s.skip(k + 1) =~= l) by {
            assert(s.skip(k + 1).len() == l.len());
            assert forall|j: int| 0 <= j < l.len() implies s.skip(k + 1)[j] == l[j] by {
                assert(s[i + (n + 1 + j)] == tail[n + 1 + j]);
            }
        }
        assert(all_words(rest)) by {
            assert forall|j: int| 0 <= j < rest.len() implies word(#[trigger] rest[j]) is Some by {
                assert(rest[j] == kinds[j + 1]);
            }
        }
        lemma_lines_are_read_back(s, k + 1, rest);
        lemma_no_trivia(s, k + 1, rest);
        // The space is skipped.
        assert(run_end(s, k, Class::Space) == k + 1);
        assert(trivium_end(s, k) == (k + 1, Seq::<Fault>::empty()));
        let none = Seq::<Fault>::empty();
        assert(none + none =~= none);
        assert(trivia_end(s, k) == (k + 1, none));
        assert(tokens_from(s, k) == tokens_from(s, k + 1));
        assert(token_at(s, i) == (k, Some(kind), none));
        assert(none + none + none =~= none);
        let toks = tokens_from(s, i).0;
        let more = tokens_from(s, k).0;
        assert(toks.len() == more.len() + 1);
        assert(kinds_of(toks) =~= kinds) by {
            assert forall|j: int| 0 <= j < kinds.len() implies kinds_of(toks)[j] == kinds[j] by {
                if j > 0 {
                    assert(toks[j] == more[j - 1]);
                    assert(kinds_of(more)[j - 1] == rest[j - 1]);
                }
            }
        }
    }
}

/// An expression of names, numbers and operators that is written out as text is read back
/// from it as the same expression.
pub proof fn lemma_texts_are_read_back(t: Tree, end: usize) -> (e: Expr)
    requires
        writable(t),
        all_words(written(t, 0)),
    ensures
        ({
            let (toks, faults) = lexed(line(written(t, 0)));
            let p = Reading { toks, end, at: 0, errs: seq![], no_struct_lit: false };
            &&& faults.len() == 0
            &&& expr(p).1 == Some(e)
            &&& expr(p).0 == past(p, toks.len())
            &&& tree(e) == t
        }),
{
    let kinds = written(t, 0);
    let s = line(kinds);
    assert(s.skip(0) =~= s);
    lemma_no_trivia(s, 0, kinds);
    lemma_lines_are_read_back(s, 0, kinds);
    assert(!at(s, 0, '\u{feff}'));
    let toks = lexed(s).0;
    let p = Reading { toks, end, at: 0, errs: seq![], no_struct_lit: false };
    assert(next_are(p, kinds)) by {
        assert forall|k: int| 0 <= k < kinds.len() implies (#[trigger] p.toks[p.at + k]).kind
            == kinds[k] by {
            assert(kinds_of(toks)[k] == kinds[k]);
        }
    }
    assert(past(p, kinds.len()).kind() is None);
    lemma_expressions_are_read_back(t, p)
}

} // verus!

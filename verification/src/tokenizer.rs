//! The tokenizer: raw source text to a flat token stream.
//!
//! Input is split on whitespace; each resulting word is classified on its
//! own: `(` and `)` (as standalone words) become parenthesis tokens, a word
//! consisting entirely of decimal digits becomes a number, and anything else
//! becomes a symbol holding the literal word. Parenthesis characters are
//! recognized only as whitespace-delimited words, so `"( + 1 2 )"` splits
//! into five tokens while `"(+ 1 2)"` yields the symbols `(+` and `2)`;
//! this is a deliberate simplification of the lexer.
//!
//! The tokenizer is total except for one failure: an all-digit word whose
//! value exceeds the signed 64-bit range is a [`KirundiError::LexError`]
//! rather than a silently wrapped number. A word that merely looks numeric
//! without being all digits (such as a lone `-`) is kept as a symbol.

use vstd::prelude::*;

use crate::error::{ErrorV, KirundiError};

verus! {

/// A classified lexical unit.
#[derive(Debug, PartialEq, Eq)]
pub enum Token {
    Number(i64),
    Symbol(String),
    OpenParen,
    CloseParen,
}

/// The mathematical model of a token.
pub enum TokenV {
    Number(int),
    Symbol(Seq<char>),
    OpenParen,
    CloseParen,
}

impl View for Token {
    type V = TokenV;

    open spec fn view(&self) -> TokenV {
        match self {
            Token::Number(n) => TokenV::Number(*n as int),
            Token::Symbol(s) => TokenV::Symbol(s@),
            Token::OpenParen => TokenV::OpenParen,
            Token::CloseParen => TokenV::CloseParen,
        }
    }
}

/// The view of a token sequence.
pub open spec fn toks_view(ts: Seq<Token>) -> Seq<TokenV> {
    ts.map_values(|t: Token| t@)
}

/// The characters treated as word separators.
pub open spec fn is_space(c: char) -> bool {
    c == ' ' || c == '\t' || c == '\n' || c == '\r'
}

/// A decimal digit.
pub open spec fn is_digit(c: char) -> bool {
    '0' as int <= c as int && c as int <= '9' as int
}

/// A non-empty word made of decimal digits only.
pub open spec fn is_digits(w: Seq<char>) -> bool {
    w.len() > 0 && forall|k: int| 0 <= k < w.len() ==> is_digit(#[trigger] w[k])
}

/// The numeric value of a digit word, most significant digit first.
pub open spec fn digits_val(w: Seq<char>) -> int
    decreases w.len(),
{
    if w.len() == 0 {
        0
    } else {
        digits_val(w.drop_last()) * 10 + (w.last() as int - '0' as int)
    }
}

/// The first index at or after `i` holding a separator (or the end of `s`).
pub open spec fn word_end(s: Seq<char>, i: int) -> int
    decreases s.len() - i,
    when 0 <= i <= s.len()
{
    if i == s.len() || is_space(s[i]) {
        i
    } else {
        word_end(s, i + 1)
    }
}

proof fn lemma_word_end(s: Seq<char>, i: int)
    requires
        0 <= i <= s.len(),
    ensures
        i <= word_end(s, i) <= s.len(),
        word_end(s, i) == s.len() || is_space(s[word_end(s, i)]),
        forall|k: int| i <= k < word_end(s, i) ==> !is_space(s[k]),
        i < s.len() && !is_space(s[i]) ==> word_end(s, i) > i,
    decreases s.len() - i,
{
    if i < s.len() && !is_space(s[i]) {
        lemma_word_end(s, i + 1);
    }
}

/// The whitespace-delimited words of `s`, from position `i` on.
pub open spec fn spec_words(s: Seq<char>, i: int) -> Seq<Seq<char>>
    decreases s.len() - i,
    when 0 <= i <= s.len()
    via spec_words_decreases
{
    if i == s.len() {
        Seq::empty()
    } else if is_space(s[i]) {
        spec_words(s, i + 1)
    } else {
        seq![s.subrange(i, word_end(s, i))] + spec_words(s, word_end(s, i))
    }
}

#[via_fn]
proof fn spec_words_decreases(s: Seq<char>, i: int) {
    if 0 <= i < s.len() && !is_space(s[i]) {
        lemma_word_end(s, i);
    }
}

/// The token a word classifies to. An all-digit word is modeled as a
/// number whatever its size; [`word_ok`] states the range restriction.
pub open spec fn classify(w: Seq<char>) -> TokenV {
    if w.len() == 1 && w[0] == '(' {
        TokenV::OpenParen
    } else if w.len() == 1 && w[0] == ')' {
        TokenV::CloseParen
    } else if is_digits(w) {
        TokenV::Number(digits_val(w))
    } else {
        TokenV::Symbol(w)
    }
}

/// A word the tokenizer accepts: not an all-digit word whose value
/// overflows a signed 64-bit integer.
pub open spec fn word_ok(w: Seq<char>) -> bool {
    is_digits(w) ==> digits_val(w) <= i64::MAX as int
}

/// The tokens of a word sequence.
pub open spec fn tokens_of(ws: Seq<Seq<char>>) -> Seq<TokenV> {
    ws.map_values(|w: Seq<char>| classify(w))
}

/// The index of the first unacceptable word, or `-1` if every word is fine.
pub open spec fn first_bad_word(ws: Seq<Seq<char>>) -> int
    decreases ws.len(),
{
    if ws.len() == 0 {
        -1
    } else if !word_ok(ws[0]) {
        0
    } else if first_bad_word(ws.drop_first()) == -1 {
        -1
    } else {
        1 + first_bad_word(ws.drop_first())
    }
}

/// What tokenizing yields: the classified words, or a lexer failure
/// naming the first unacceptable word.
pub open spec fn spec_tokenize(s: Seq<char>) -> Result<Seq<TokenV>, ErrorV> {
    let ws = spec_words(s, 0);
    if first_bad_word(ws) == -1 {
        Ok(tokens_of(ws))
    } else {
        Err(ErrorV::LexError(ws[first_bad_word(ws)]))
    }
}

proof fn lemma_first_bad_word_none(ws: Seq<Seq<char>>)
    requires
        forall|k: int| 0 <= k < ws.len() ==> word_ok(#[trigger] ws[k]),
    ensures
        first_bad_word(ws) == -1,
    decreases ws.len(),
{
    if ws.len() > 0 {
        lemma_first_bad_word_none(ws.drop_first());
    }
}

proof fn lemma_first_bad_word_at(ws: Seq<Seq<char>>, k: int)
    requires
        0 <= k < ws.len(),
        forall|j: int| 0 <= j < k ==> word_ok(#[trigger] ws[j]),
        !word_ok(ws[k]),
    ensures
        first_bad_word(ws) == k,
    decreases ws.len(),
{
    if k > 0 {
        lemma_first_bad_word_at(ws.drop_first(), k - 1);
    }
}

proof fn lemma_digits_val_nonneg(w: Seq<char>)
    requires
        forall|k: int| 0 <= k < w.len() ==> is_digit(#[trigger] w[k]),
    ensures
        digits_val(w) >= 0,
    decreases w.len(),
{
    if w.len() > 0 {
        lemma_digits_val_nonneg(w.drop_last());
    }
}

/// The value of a digit word is at least the value of any of its prefixes.
proof fn lemma_digits_val_prefix_le(w: Seq<char>, k: int)
    requires
        0 <= k <= w.len(),
        forall|j: int| 0 <= j < w.len() ==> is_digit(#[trigger] w[j]),
    ensures
        digits_val(w.subrange(0, k)) <= digits_val(w),
    decreases w.len() - k,
{
    if k == w.len() {
        assert(w.subrange(0, k) =~= w);
    } else {
        lemma_digits_val_prefix_le(w, k + 1);
        let p = w.subrange(0, k);
        let q = w.subrange(0, k + 1);
        assert(q.drop_last() =~= p);
        lemma_digits_val_nonneg(p);
    }
}

fn space(c: char) -> (r: bool)
    ensures
        r == is_space(c),
{
    c == ' ' || c == '\t' || c == '\n' || c == '\r'
}

/// Classifies one whitespace-delimited word.
fn classify_word(word: &str) -> (r: Result<Token, KirundiError>)
    requires
        word@.len() > 0,
    ensures
        match r {
            Ok(t) => word_ok(word@) && t@ == classify(word@),
            Err(e) => !word_ok(word@) && e@ == ErrorV::LexError(word@),
        },
{
    let n = word.unicode_len();
    if n == 1 {
        let c = word.get_char(0);
        if c == '(' {
            return Ok(Token::OpenParen);
        }
        if c == ')' {
            return Ok(Token::CloseParen);
        }
    }
    let mut k: usize = 0;
    while k < n
        invariant
            n == word@.len(),
            k <= n,
            n >= 1,
            !(word@.len() == 1 && word@[0] == '('),
            !(word@.len() == 1 && word@[0] == ')'),
            forall|j: int| 0 <= j < k ==> is_digit(#[trigger] word@[j]),
        decreases n - k,
    {
        let c = word.get_char(k);
        let u = c as u32;
        if u < 48 || u > 57 {
            // not all digits: the word is a symbol
            proof {
                assert(!is_digit(word@[k as int]));
                assert(!is_digits(word@));
            }
            return Ok(Token::Symbol(word.to_owned()));
        }
        k += 1;
    }
    // all digits: read the value, rejecting anything above i64::MAX
    let mut acc: u64 = 0;
    let mut k2: usize = 0;
    while k2 < n
        invariant
            n == word@.len(),
            k2 <= n,
            is_digits(word@),
            !(word@.len() == 1 && word@[0] == '('),
            !(word@.len() == 1 && word@[0] == ')'),
            acc as int == digits_val(word@.subrange(0, k2 as int)),
            acc <= 0x7fff_ffff_ffff_ffff,
        decreases n - k2,
    {
        let c = word.get_char(k2);
        let d = (c as u32 - 48) as u64;
        proof {
            let q = word@.subrange(0, k2 + 1int);
            assert(q.drop_last() =~= word@.subrange(0, k2 as int));
        }
        if acc > 922_337_203_685_477_580 || (acc == 922_337_203_685_477_580 && d > 7) {
            proof {
                lemma_digits_val_prefix_le(word@, k2 + 1int);
            }
            return Err(KirundiError::LexError(word.to_owned()));
        }
        acc = acc * 10 + d;
        k2 += 1;
    }
    proof {
        assert(word@.subrange(0, n as int) =~= word@);
    }
    Ok(Token::Number(acc as i64))
}

/// Splits `input` on whitespace and classifies each word.
///
/// On success the tokens are exactly the classified words of the input, in
/// order. The one failure is an all-digit word whose value exceeds the
/// signed 64-bit range: the error carries the first such word.
pub fn tokenize(input: &str) -> (r: Result<Vec<Token>, KirundiError>)
    ensures
        match r {
            Ok(ts) => spec_tokenize(input@) == Ok::<Seq<TokenV>, ErrorV>(toks_view(ts@)),
            Err(e) => spec_tokenize(input@) == Err::<Seq<TokenV>, ErrorV>(e@),
        },
{
    let n = input.unicode_len();
    let mut tokens: Vec<Token> = Vec::new();
    let mut i: usize = 0;
    let ghost mut words_seen: Seq<Seq<char>> = Seq::empty();
    while i < n
        invariant
            n == input@.len(),
            i <= n,
            spec_words(input@, 0) == words_seen + spec_words(input@, i as int),
            forall|k: int| 0 <= k < words_seen.len() ==> word_ok(#[trigger] words_seen[k]),
            toks_view(tokens@) == tokens_of(words_seen),
        decreases n - i,
    {
        let c = input.get_char(i);
        if space(c) {
            i += 1;
        } else {
            let ghost s = input@;
            let mut j: usize = i + 1;
            proof {
                lemma_word_end(s, i as int);
            }
            while j < n && !space(input.get_char(j))
                invariant
                    n == s.len(),
                    s == input@,
                    i < j <= n,
                    word_end(s, i as int) == word_end(s, j as int),
                decreases n - j,
            {
                j += 1;
            }
            proof {
                assert(word_end(s, j as int) == j);
                assert(word_end(s, i as int) == j);
            }
            let word = input.substring_char(i, j);
            let ghost w = s.subrange(i as int, j as int);
            proof {
                assert(spec_words(s, i as int) =~= seq![w] + spec_words(s, j as int));
            }
            match classify_word(word) {
                Ok(t) => {
                    proof {
                        assert(t@ == classify(w));
                    }
                    let ghost prev_toks = tokens@;
                    let ghost prev_words = words_seen;
                    tokens.push(t);
                    proof {
                        words_seen = prev_words.push(w);
                        assert(prev_words + (seq![w] + spec_words(s, j as int)) =~= words_seen
                            + spec_words(s, j as int));
                        assert(toks_view(prev_toks).len() == prev_toks.len());
                        assert(tokens_of(prev_words).len() == prev_words.len());
                        assert(prev_toks.len() == prev_words.len());
                        assert(tokens_of(words_seen).len() == words_seen.len());
                        assert(toks_view(tokens@).len() == tokens@.len());
                        assert forall|x: int| 0 <= x < tokens@.len() implies toks_view(
                            tokens@,
                        )[x] == tokens_of(words_seen)[x] by {
                            if x < prev_toks.len() {
                                assert(toks_view(prev_toks)[x] == tokens_of(prev_words)[x]);
                                assert(tokens@[x] == prev_toks[x]);
                                assert(words_seen[x] == prev_words[x]);
                            } else {
                                assert(words_seen[x] == w);
                                assert(tokens@[x]@ == classify(w));
                            }
                        }
                        assert(toks_view(tokens@) =~= tokens_of(words_seen));
                    }
                    i = j;
                },
                Err(e) => {
                    proof {
                        let ws = spec_words(s, 0);
                        assert(ws =~= words_seen + (seq![w] + spec_words(s, j as int)));
                        assert(ws[words_seen.len() as int] == w);
                        lemma_first_bad_word_at(ws, words_seen.len() as int);
                    }
                    return Err(e);
                },
            }
        }
    }
    proof {
        assert(spec_words(input@, 0) =~= words_seen);
        lemma_first_bad_word_none(spec_words(input@, 0));
    }
    Ok(tokens)
}

} // verus!

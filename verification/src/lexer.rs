use crate::chars::{is_alphanumeric_char, is_ascii_digit_char, is_numeric_char, is_whitespace_char};
use crate::error::Error;
use crate::token::{operator_of, spec_operator_of, Token, TokenView};
use vstd::prelude::*;
use vstd::string::StrSliceExecFns;

verus! {

/// The classes of characters over which the lexer scans runs.
#[derive(Clone, Copy)]
pub enum CharClass {
    Whitespace,
    Alphanumeric,
    Numeric,
    NotQuote,
}

pub open spec fn char_in_class(c: char, k: CharClass) -> bool {
    match k {
        CharClass::Whitespace => is_whitespace_char(c),
        CharClass::Alphanumeric => is_alphanumeric_char(c),
        CharClass::Numeric => is_numeric_char(c),
        CharClass::NotQuote => c != '"',
    }
}

/// Tests membership in a character class, matching `char_in_class`.
fn check_class(c: char, k: CharClass) -> (r: bool)
    ensures
        r == char_in_class(c, k),
{
    match k {
        CharClass::Whitespace => c.is_whitespace(),
        CharClass::Alphanumeric => c.is_alphanumeric(),
        CharClass::Numeric => c.is_numeric(),
        CharClass::NotQuote => c != '"',
    }
}

/// The first position at or after `pos` whose character is not in class `k`,
/// or the end of the text.
pub open spec fn spec_scan(src: Seq<char>, pos: int, k: CharClass) -> int
    recommends
        0 <= pos <= src.len(),
    decreases src.len() - pos
        when 0 <= pos <= src.len()
{
    if pos < src.len() && char_in_class(src[pos], k) {
        spec_scan(src, pos + 1, k)
    } else {
        pos
    }
}

/// What a finished scan means: it stays within bounds, stops at the first
/// character outside the class, and is a fixpoint.
pub proof fn lemma_scan(src: Seq<char>, pos: int, k: CharClass)
    requires
        0 <= pos <= src.len(),
    ensures
        pos <= spec_scan(src, pos, k) <= src.len(),
        spec_scan(src, pos, k) < src.len() ==> !char_in_class(src[spec_scan(src, pos, k)], k),
        forall|i: int| pos <= i < spec_scan(src, pos, k) ==> char_in_class(src[i], k),
        spec_scan(src, spec_scan(src, pos, k), k) == spec_scan(src, pos, k),
    decreases src.len() - pos,
{
    if pos < src.len() && char_in_class(src[pos], k) {
        lemma_scan(src, pos + 1, k);
    }
}

/// The position of the first non-whitespace character at or after `pos`.
pub open spec fn spec_skip_ws(src: Seq<char>, pos: int) -> int {
    spec_scan(src, pos, CharClass::Whitespace)
}

/// A text made of ASCII decimal digits only: the numeric literals the
/// language accepts.
pub open spec fn all_ascii_digits(s: Seq<char>) -> bool {
    forall|i: int| 0 <= i < s.len() ==> is_ascii_digit_char(#[trigger] s[i])
}

/// The reserved words the lexer recognizes but whose evaluation is not
/// implemented.
pub open spec fn is_reserved_word(s: Seq<char>) -> bool {
    s == "or"@ || s == "in"@ || s == "and"@ || s == "true"@ || s == "false"@ || s == "null"@
}

/// The token that starts at position `pos` (a non-whitespace position),
/// and the position just past it.
pub open spec fn spec_token_at(src: Seq<char>, pos: int) -> (Result<TokenView, Error>, int)
    recommends
        0 <= pos < src.len(),
{
    let c = src[pos];
    if spec_operator_of(c) is Some {
        (Ok(TokenView::Operator(spec_operator_of(c)->Some_0)), pos + 1)
    } else if c == '$' {
        let end = spec_scan(src, pos + 1, CharClass::Alphanumeric);
        (Ok(TokenView::Variable(src.subrange(pos + 1, end))), end)
    } else if c == '"' {
        let end = spec_scan(src, pos + 1, CharClass::NotQuote);
        if end < src.len() {
            (Ok(TokenView::String(src.subrange(pos + 1, end))), end + 1)
        } else {
            (Err(Error::UnterminatedString), src.len() as int)
        }
    } else if is_ascii_digit_char(c) {
        let end = spec_scan(src, pos + 1, CharClass::Numeric);
        if all_ascii_digits(src.subrange(pos, end)) {
            (Ok(TokenView::Number(src.subrange(pos, end))), end)
        } else {
            (Err(Error::S0102), end)
        }
    } else {
        let end = spec_scan(src, pos + 1, CharClass::Alphanumeric);
        if is_reserved_word(src.subrange(pos, end)) {
            (Err(Error::Unsupported), end)
        } else {
            (Ok(TokenView::Name(src.subrange(pos, end))), end)
        }
    }
}

/// The next token at or after `pos`, with the position just past it;
/// `None` when only whitespace remains.
pub open spec fn spec_next_token(src: Seq<char>, pos: int) -> Option<
    (Result<TokenView, Error>, int),
> {
    let start = spec_skip_ws(src, pos);
    if start >= src.len() {
        None
    } else {
        Some(spec_token_at(src, start))
    }
}

/// A token, when there is one, ends strictly after the position it was
/// requested at and within the text.
pub proof fn lemma_next_token(src: Seq<char>, pos: int)
    requires
        0 <= pos <= src.len(),
    ensures
        pos <= spec_skip_ws(src, pos) <= src.len(),
        match spec_next_token(src, pos) {
            Some((r, end)) => pos <= spec_skip_ws(src, pos) < end <= src.len(),
            None => spec_skip_ws(src, pos) == src.len(),
        },
{
    lemma_scan(src, pos, CharClass::Whitespace);
    let start = spec_skip_ws(src, pos);
    if start < src.len() {
        lemma_scan(src, start + 1, CharClass::Alphanumeric);
        lemma_scan(src, start + 1, CharClass::Numeric);
        lemma_scan(src, start + 1, CharClass::NotQuote);
    }
}

/// Skipping whitespace does not change what the next token is.
pub proof fn lemma_next_token_stable(src: Seq<char>, pos: int)
    requires
        0 <= pos <= src.len(),
    ensures
        spec_skip_ws(src, spec_skip_ws(src, pos)) == spec_skip_ws(src, pos),
        spec_next_token(src, spec_skip_ws(src, pos)) == spec_next_token(src, pos),
{
    lemma_scan(src, pos, CharClass::Whitespace);
}

/// The whole token stream from `pos` on: every token in order, or the first
/// lexing error.
pub open spec fn spec_tokens(src: Seq<char>, pos: int) -> Result<Seq<TokenView>, Error>
    recommends
        0 <= pos <= src.len(),
    decreases src.len() - pos
        when 0 <= pos <= src.len()
        via spec_tokens_decreases
{
    match spec_next_token(src, pos) {
        None => Ok(Seq::empty()),
        Some((r, end)) => match r {
            Err(e) => Err(e),
            Ok(t) => match spec_tokens(src, end) {
                Ok(rest) => Ok(seq![t] + rest),
                Err(e) => Err(e),
            },
        },
    }
}

#[via_fn]
proof fn spec_tokens_decreases(src: Seq<char>, pos: int) {
    lemma_next_token(src, pos);
}

/// The views of a sequence of owned tokens.
pub open spec fn token_views(ts: Seq<Token>) -> Seq<TokenView> {
    ts.map_values(|t: Token| t@)
}

/// Whether an owned token agrees with a token of the specification.
pub open spec fn token_result_matches(r: Result<Token, Error>, s: Result<TokenView, Error>) -> bool {
    match (r, s) {
        (Ok(t), Ok(tv)) => t@ == tv,
        (Err(e), Err(se)) => e == se,
        _ => false,
    }
}

/// Character-wise string equality.
fn str_eq(a: &str, b: &str) -> (r: bool)
    ensures
        r == (a@ == b@),
{
    let n = a.unicode_len();
    if n != b.unicode_len() {
        return false;
    }
    let mut i: usize = 0;
    while i < n
        invariant
            i <= n,
            n == a@.len(),
            n == b@.len(),
            forall|j: int| 0 <= j < i ==> a@[j] == b@[j],
        decreases n - i,
    {
        if a.get_char(i) != b.get_char(i) {
            return false;
        }
        i = i + 1;
    }
    proof {
        assert(a@ =~= b@);
    }
    true
}

/// Whether every character of the text is an ASCII decimal digit.
fn all_digits(s: &str) -> (r: bool)
    ensures
        r == all_ascii_digits(s@),
{
    let n = s.unicode_len();
    let mut i: usize = 0;
    while i < n
        invariant
            i <= n,
            n == s@.len(),
            forall|j: int| 0 <= j < i ==> is_ascii_digit_char(#[trigger] s@[j]),
        decreases n - i,
    {
        let c = s.get_char(i);
        if !('0' <= c && c <= '9') {
            return false;
        }
        i = i + 1;
    }
    true
}

/// Whether the text is one of the reserved words.
fn is_reserved(s: &str) -> (r: bool)
    ensures
        r == is_reserved_word(s@),
{
    str_eq(s, "or") || str_eq(s, "in") || str_eq(s, "and") || str_eq(s, "true") || str_eq(s, "false")
        || str_eq(s, "null")
}

/// A lazy tokenizer over the source text with one token of lookahead.
///
/// Its abstract state is the source as a character sequence (`src`) and the
/// position of the next unconsumed token (`pos`); a peeked token is cached
/// without being consumed.
pub struct Lexer {
    source: String,
    length: usize,
    position: usize,
    peeked: Option<Result<Token, Error>>,
    start: Ghost<int>,
}

impl Lexer {
    /// The source text.
    pub closed spec fn src(&self) -> Seq<char> {
        self.source@
    }

    /// The position the next token will be read from.
    pub closed spec fn pos(&self) -> int {
        if self.peeked is Some {
            self.start@
        } else {
            self.position as int
        }
    }

    /// The lexer's internal consistency: the cached token, when present, is
    /// exactly the token of the specification at the cached position.
    pub closed spec fn wf(&self) -> bool {
        &&& self.length == self.source@.len()
        &&& self.position <= self.length
        &&& match self.peeked {
            None => true,
            Some(r) => {
                &&& 0 <= self.start@ <= self.position
                &&& spec_skip_ws(self.source@, self.start@) == self.start@
                &&& spec_next_token(self.source@, self.start@) matches Some((sr, end))
                    && end == self.position as int && token_result_matches(r, sr)
            },
        }
    }

    /// A well-formed lexer's position lies within its text.
    pub proof fn wf_bounds(&self)
        requires
            self.wf(),
        ensures
            0 <= self.pos() <= self.src().len(),
    {
    }

    pub fn new(source: &str) -> (r: Lexer)
        ensures
            r.wf(),
            r.src() == source@,
            r.pos() == 0,
    {
        let owned = source.to_owned();
        let length = owned.as_str().unicode_len();
        Lexer { source: owned, length, position: 0, peeked: None, start: Ghost(0int) }
    }

    /// Advances `position` past the characters of class `k`.
    fn scan_class(&mut self, k: CharClass)
        requires
            old(self).peeked is None,
            old(self).length == old(self).src().len(),
            old(self).position <= old(self).length,
        ensures
            final(self).source == old(self).source,
            final(self).length == old(self).length,
            final(self).peeked is None,
            final(self).position as int == spec_scan(
                old(self).src(),
                old(self).position as int,
                k,
            ),
    {
        loop
            invariant
                self.peeked is None,
                self.source == old(self).source,
                self.length == old(self).length,
                self.length == self.source@.len(),
                old(self).position <= self.position <= self.length,
                spec_scan(self.source@, old(self).position as int, k) == spec_scan(
                    self.source@,
                    self.position as int,
                    k,
                ),
            ensures
                spec_scan(self.source@, self.position as int, k) == self.position as int,
            decreases self.length - self.position,
        {
            if self.position >= self.length {
                break ;
            }
            let c = self.source.as_str().get_char(self.position);
            if !check_class(c, k) {
                break ;
            }
            self.position = self.position + 1;
        }
    }

    /// Reads the next token from the text, with no cache involved.
    fn next_token(&mut self) -> (r: Option<Result<Token, Error>>)
        requires
            old(self).wf(),
            old(self).peeked is None,
        ensures
            final(self).wf(),
            final(self).peeked is None,
            final(self).src() == old(self).src(),
            match spec_next_token(old(self).src(), old(self).pos()) {
                None => r is None && final(self).pos() == old(self).src().len(),
                Some((sr, end)) => r matches Some(rr) && token_result_matches(rr, sr)
                    && final(self).pos() == end,
            },
    {
        let ghost src = self.source@;
        let ghost p0 = self.position as int;
        proof {
            lemma_scan(src, p0, CharClass::Whitespace);
        }
        self.scan_class(CharClass::Whitespace);
        if self.position >= self.length {
            return None;
        }
        let ghost start = self.position as int;
        let c = self.source.as_str().get_char(self.position);
        self.position = self.position + 1;
        if let Some(op) = operator_of(c) {
            return Some(Ok(Token::Operator(op)));
        }
        if c == '$' {
            let vstart = self.position;
            proof {
                lemma_scan(src, vstart as int, CharClass::Alphanumeric);
            }
            self.scan_class(CharClass::Alphanumeric);
            let text = self.source.as_str().substring_char(vstart, self.position).to_owned();
            return Some(Ok(Token::Variable(text)));
        }
        if c == '"' {
            let sstart = self.position;
            proof {
                lemma_scan(src, sstart as int, CharClass::NotQuote);
            }
            self.scan_class(CharClass::NotQuote);
            if self.position >= self.length {
                return Some(Err(Error::UnterminatedString));
            }
            let text = self.source.as_str().substring_char(sstart, self.position).to_owned();
            self.position = self.position + 1;
            return Some(Ok(Token::String(text)));
        }
        if '0' <= c && c <= '9' {
            let nstart = self.position - 1;
            proof {
                lemma_scan(src, self.position as int, CharClass::Numeric);
            }
            self.scan_class(CharClass::Numeric);
            let text = self.source.as_str().substring_char(nstart, self.position).to_owned();
            if all_digits(text.as_str()) {
                return Some(Ok(Token::Number(text)));
            } else {
                return Some(Err(Error::S0102));
            }
        }
        let nstart = self.position - 1;
        proof {
            lemma_scan(src, self.position as int, CharClass::Alphanumeric);
        }
        self.scan_class(CharClass::Alphanumeric);
        let text = self.source.as_str().substring_char(nstart, self.position).to_owned();
        if is_reserved(text.as_str()) {
            return Some(Err(Error::Unsupported));
        }
        Some(Ok(Token::Name(text)))
    }

    /// Returns the next token, consuming it; `None` at the end of the text.
    pub fn next(&mut self) -> (r: Option<Result<Token, Error>>)
        requires
            old(self).wf(),
        ensures
            final(self).wf(),
            final(self).src() == old(self).src(),
            match spec_next_token(old(self).src(), old(self).pos()) {
                None => r is None && final(self).pos() == old(self).src().len(),
                Some((sr, end)) => r matches Some(rr) && token_result_matches(rr, sr)
                    && final(self).pos() == end,
            },
    {
        let p = self.peeked.take();
        if let Some(tok) = p {
            return Some(tok);
        }
        self.next_token()
    }

    /// Returns the next token without consuming it: a later `next` returns
    /// the same token. Only the whitespace before it is consumed.
    pub fn peek(&mut self) -> (r: Option<&Result<Token, Error>>)
        requires
            old(self).wf(),
        ensures
            final(self).wf(),
            final(self).src() == old(self).src(),
            final(self).pos() == spec_skip_ws(old(self).src(), old(self).pos()),
            spec_next_token(final(self).src(), final(self).pos()) == spec_next_token(
                old(self).src(),
                old(self).pos(),
            ),
            match spec_next_token(old(self).src(), old(self).pos()) {
                None => r is None,
                Some((sr, end)) => r matches Some(rr) && token_result_matches(*rr, sr),
            },
    {
        proof {
            lemma_next_token_stable(self.source@, self.pos());
        }
        if self.peeked.is_some() {
            return self.peeked.as_ref();
        }
        let ghost p0 = self.position as int;
        proof {
            lemma_next_token(self.source@, p0);
        }
        let t = self.next_token();
        match t {
            None => None,
            Some(tok) => {
                self.peeked = Some(tok);
                self.start = Ghost(spec_skip_ws(self.source@, p0));
                proof {
                    lemma_scan(self.source@, p0, CharClass::Whitespace);
                    lemma_next_token(self.source@, self.start@);
                }
                self.peeked.as_ref()
            },
        }
    }

    /// Reads the whole remaining text as a token list, or reports the first
    /// lexing error.
    pub fn collect_tokens(&mut self) -> (r: Result<Vec<Token>, Error>)
        requires
            old(self).wf(),
        ensures
            final(self).wf(),
            final(self).src() == old(self).src(),
            r is Ok ==> final(self).pos() == final(self).src().len(),
            match (r, spec_tokens(old(self).src(), old(self).pos())) {
                (Ok(v), Ok(s)) => token_views(v@) == s,
                (Err(e), Err(se)) => e == se,
                _ => false,
            },
    {
        let ghost src = self.src();
        let ghost p0 = self.pos();
        let mut out: Vec<Token> = Vec::new();
        proof {
            if spec_tokens(src, p0) is Ok {
                assert(token_views(out@) + spec_tokens(src, p0)->Ok_0 =~= spec_tokens(
                    src,
                    p0,
                )->Ok_0);
            }
        }
        loop
            invariant
                self.wf(),
                self.src() == src,
                src == old(self).src(),
                p0 == old(self).pos(),
                0 <= self.pos() <= src.len(),
                spec_tokens(src, p0) == (match spec_tokens(src, self.pos()) {
                    Ok(rest) => Ok::<Seq<TokenView>, Error>(token_views(out@) + rest),
                    Err(e) => Err(e),
                }),
            decreases src.len() - self.pos(),
        {
            let ghost p = self.pos();
            proof {
                lemma_next_token(src, p);
            }
            match self.next() {
                None => {
                    proof {
                        assert(token_views(out@) + Seq::<TokenView>::empty() =~= token_views(
                            out@,
                        ));
                    }
                    return Ok(out);
                },
                Some(Ok(t)) => {
                    let ghost prev = out@;
                    out.push(t);
                    proof {
                        assert(token_views(out@) =~= token_views(prev) + seq![
                            out@[prev.len() as int]@,
                        ]);
                        if spec_tokens(src, self.pos()) is Ok {
                            assert(token_views(prev) + (seq![out@[prev.len() as int]@]
                                + spec_tokens(src, self.pos())->Ok_0) =~= token_views(out@)
                                + spec_tokens(src, self.pos())->Ok_0);
                        }
                    }
                },
                Some(Err(e)) => {
                    return Err(e);
                },
            }
        }
    }
}

} // verus!

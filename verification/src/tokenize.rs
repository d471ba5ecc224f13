//! The tokenizer: source text to a run of classified tokens. The patterns of
//! blank space, strings, numbers and symbols are regular expressions, matched
//! by the `regex` crate.
use vstd::prelude::*;
use vstd::string::{StrSliceExecFns, StringExecFns};

verus! {

/// The kind of a token.
#[derive(Debug, PartialEq, Eq, Copy, Clone, Structural)]
pub enum TokenType {
    Number,
    ListStart,
    ListEnd,
    VectorStart,
    VectorEnd,
    HashMapStart,
    HashMapEnd,
    Symbol,
    Keyword,
    Str,
}

/// A token: its kind and its text as it stands in the source.
pub type Token = (TokenType, String);

/// The model of a token.
pub open spec fn token_view(t: Token) -> (TokenType, Seq<char>) {
    (t.0, t.1@)
}

/// The models of a run of tokens.
pub open spec fn tokens_view(tokens: Seq<Token>) -> Seq<(TokenType, Seq<char>)> {
    Seq::new(tokens.len(), |i: int| token_view(tokens[i]))
}

/// What `regex::Regex::find` returns for the regular expression compiled
/// from `pattern` on `text`: the text before the first match, the match, and
/// the text after it; none where nothing matches or the pattern does not
/// compile.
pub uninterp spec fn first_match(pattern: Seq<char>, text: Seq<char>) -> Option<
    (Seq<char>, Seq<char>, Seq<char>),
>;

/// Compiles `pattern` with `regex::Regex::new` and searches `text` with
/// `regex::Regex::find`. The contract names the outcome and claims one thing
/// of it: the three parts, joined, are the text that was searched (the match
/// is a range of the text, on character boundaries).
#[verifier::external_body]
fn find_first(pattern: &str, text: &str) -> (r: Option<(String, String, String)>)
    ensures
        match r {
            Some(parts) => first_match(pattern@, text@) == Some((parts.0@, parts.1@, parts.2@))
                && parts.0@ + parts.1@ + parts.2@ == text@,
            None => first_match(pattern@, text@) is None,
        },
{
    let re = regex::Regex::new(pattern).ok()?;
    let m = re.find(text)?;
    Some((text[..m.start()].to_string(), m.as_str().to_string(), text[m.end()..].to_string()))
}

/// The pattern of what is skipped before a token: blank space and comments
/// from `;` to the end of the line.
pub open spec fn blank_pattern() -> Seq<char> {
    "^(\\s+|;.*?(\n|$))+"@
}

/// The pattern of a string literal: from a double quote to the next one on
/// the same line.
pub open spec fn string_pattern() -> Seq<char> {
    "^\".*?\""@
}

/// The pattern of a number: digits, after a minus sign or without one.
pub open spec fn number_pattern() -> Seq<char> {
    "^-?\\d+"@
}

/// The pattern of a symbol: anything up to blank space or a bracket.
pub open spec fn symbol_pattern() -> Seq<char> {
    "^[^\\s\\{\\}()\\[\\]]+"@
}

/// What a search found, where that is a match at the very start of `text`
/// that is not empty: the match and the text after it.
pub open spec fn anchored(
    found: Option<(Seq<char>, Seq<char>, Seq<char>)>,
    text: Seq<char>,
) -> Option<(Seq<char>, Seq<char>)> {
    match found {
        Some((before, matched, after)) => if before.len() == 0 && matched.len() > 0 && matched
            + after == text {
            Some((matched, after))
        } else {
            None
        },
        None => None,
    }
}

/// The match of `pattern` at the very start of `text`, when it is not
/// empty, and the text that follows it.
pub open spec fn leading(pattern: Seq<char>, text: Seq<char>) -> Option<(Seq<char>, Seq<char>)> {
    anchored(first_match(pattern, text), text)
}

/// The text without the blank space and comments that it starts with.
pub open spec fn skip_blank(text: Seq<char>) -> Seq<char> {
    match leading(blank_pattern(), text) {
        Some((_, rest)) => rest,
        None => text,
    }
}

/// The token that a bracket character stands for.
pub open spec fn bracket_token(c: char) -> Option<(TokenType, Seq<char>)> {
    if c == '(' {
        Some((TokenType::ListStart, "("@))
    } else if c == ')' {
        Some((TokenType::ListEnd, ")"@))
    } else if c == '[' {
        Some((TokenType::VectorStart, "["@))
    } else if c == ']' {
        Some((TokenType::VectorEnd, "]"@))
    } else if c == '{' {
        Some((TokenType::HashMapStart, "{"@))
    } else if c == '}' {
        Some((TokenType::HashMapEnd, "}"@))
    } else {
        None
    }
}

/// The kind of a token matched by the symbol pattern: a keyword where it
/// starts with a colon.
pub open spec fn word_kind(found: Seq<char>) -> TokenType {
    if found.len() > 0 && found[0] == ':' {
        TokenType::Keyword
    } else {
        TokenType::Symbol
    }
}

/// The token that `input` starts with, and the text after it. `input` is
/// text from which leading blank space has been taken. The kinds are tried
/// in this order: bracket, string, number, symbol.
pub open spec fn token_at(input: Seq<char>) -> Option<((TokenType, Seq<char>), Seq<char>)> {
    if input.len() == 0 {
        None
    } else if bracket_token(input[0]) is Some {
        Some((bracket_token(input[0])->Some_0, input.skip(1)))
    } else {
        match leading(string_pattern(), input) {
            Some((found, rest)) => Some(((TokenType::Str, found), rest)),
            None => match leading(number_pattern(), input) {
                Some((found, rest)) => Some(((TokenType::Number, found), rest)),
                None => match leading(symbol_pattern(), input) {
                    Some((found, rest)) => Some(((word_kind(found), found), rest)),
                    None => None,
                },
            },
        }
    }
}

/// The first token of `text` and the text after it; none where only blank
/// space and comments are left, or nothing matches.
pub open spec fn next_token(text: Seq<char>) -> Option<((TokenType, Seq<char>), Seq<char>)> {
    token_at(skip_blank(text))
}

/// All the tokens of `text`, in order.
pub open spec fn tokens_of(text: Seq<char>) -> Seq<(TokenType, Seq<char>)>
    decreases text.len(),
{
    match next_token(text) {
        Some((token, rest)) => seq![token] + tokens_of(rest),
        None => Seq::empty(),
    }
}

/// A token takes at least one character from the text.
pub proof fn lemma_token_shortens(text: Seq<char>)
    ensures
        skip_blank(text).len() <= text.len(),
        match next_token(text) {
            Some((token, rest)) => rest.len() < text.len(),
            None => true,
        },
{
}

/// A token is not empty, and with the text after it makes up the text that
/// followed the blank space.
pub proof fn lemma_token_text(text: Seq<char>)
    ensures
        match next_token(text) {
            Some((token, rest)) => token.1.len() > 0 && token.1 + rest == skip_blank(text),
            None => true,
        },
{
    let input = skip_blank(text);
    if input.len() > 0 && bracket_token(input[0]) is Some {
        reveal_strlit("(");
        reveal_strlit(")");
        reveal_strlit("[");
        reveal_strlit("]");
        reveal_strlit("{");
        reveal_strlit("}");
        assert(bracket_token(input[0])->Some_0.1 =~= seq![input[0]]);
        assert(seq![input[0]] + input.skip(1) =~= input);
    }
}

/// No token of a text is empty.
pub proof fn lemma_tokens_not_empty(text: Seq<char>)
    ensures
        forall|i: int|
            0 <= i < tokens_of(text).len() ==> (#[trigger] tokens_of(text)[i]).1.len() > 0,
    decreases text.len(),
{
    lemma_token_text(text);
    match next_token(text) {
        Some((token, rest)) => {
            lemma_tokens_not_empty(rest);
            assert forall|i: int| 0 <= i < tokens_of(text).len() implies (#[trigger] tokens_of(
                text,
            )[i]).1.len() > 0 by {
                if i > 0 {
                    assert(tokens_of(text)[i] == tokens_of(rest)[i - 1]);
                }
            }
        },
        None => {},
    }
}

/// Keeps what a search found where it is a match at the very start of the
/// text that is not empty. `parts` are the text before the match, the match
/// and the text after it.
pub fn anchored_match(parts: Option<(String, String, String)>) -> (r: Option<(String, String)>)
    ensures
        match parts {
            Some(p) => if p.0@.len() == 0 && p.1@.len() > 0 {
                r is Some && r->Some_0.0@ == p.1@ && r->Some_0.1@ == p.2@
            } else {
                r is None
            },
            None => r is None,
        },
{
    match parts {
        Some((before, found, after)) => {
            if before.as_str().is_empty() && !found.as_str().is_empty() {
                Some((found, after))
            } else {
                None
            }
        },
        None => None,
    }
}

/// Matches `pattern` at the very start of `text`.
fn leading_match(pattern: &str, text: &str) -> (r: Option<(String, String)>)
    ensures
        match r {
            Some(parts) => leading(pattern@, text@) == Some((parts.0@, parts.1@)),
            None => leading(pattern@, text@) is None,
        },
{
    let found = find_first(pattern, text);
    proof {
        if found is Some && found->Some_0.0@.len() == 0 {
            let p = found->Some_0;
            assert(p.0@ + p.1@ + p.2@ =~= p.1@ + p.2@);
        }
    }
    anchored_match(found)
}

/// The token of a word that the symbol pattern matched: a keyword where it
/// starts with a colon, a symbol otherwise.
pub fn word(found: String) -> (r: Token)
    ensures
        token_view(r) == (word_kind(found@), found@),
{
    let kind = if found.as_str().unicode_len() > 0 && found.as_str().get_char(0) == ':' {
        TokenType::Keyword
    } else {
        TokenType::Symbol
    };
    (kind, found)
}

/// The token that a bracket character stands for.
pub fn bracket(c: char) -> (r: Option<Token>)
    ensures
        match r {
            Some(t) => bracket_token(c) == Some(token_view(t)),
            None => bracket_token(c) is None,
        },
{
    if c == '(' {
        Some(token(TokenType::ListStart, "("))
    } else if c == ')' {
        Some(token(TokenType::ListEnd, ")"))
    } else if c == '[' {
        Some(token(TokenType::VectorStart, "["))
    } else if c == ']' {
        Some(token(TokenType::VectorEnd, "]"))
    } else if c == '{' {
        Some(token(TokenType::HashMapStart, "{"))
    } else if c == '}' {
        Some(token(TokenType::HashMapEnd, "}"))
    } else {
        None
    }
}

/// The token of the given kind and text.
pub fn token(token_type: TokenType, s: &str) -> (r: Token)
    ensures
        token_view(r) == (token_type, s@),
{
    (token_type, String::from_str(s))
}

/// A cursor over source text that gives its tokens one by one.
pub struct Tokenizer {
    input: String,
}

impl View for Tokenizer {
    type V = Seq<char>;

    /// The text that is still to be read.
    closed spec fn view(&self) -> Seq<char> {
        self.input@
    }
}

impl Tokenizer {
    /// A tokenizer at the start of `input`.
    pub fn new(input: &str) -> (r: Tokenizer)
        ensures
            r@ == input@,
    {
        Tokenizer { input: String::from_str(input) }
    }

    /// The next token, if there is one; the tokenizer moves past it.
    pub fn next(&mut self) -> (r: Option<Token>)
        ensures
            match next_token(old(self)@) {
                Some((t, rest)) => r is Some && token_view(r->Some_0) == t && final(self)@ == rest,
                None => r is None && final(self)@ == skip_blank(old(self)@),
            },
    {
        match leading_match("^(\\s+|;.*?(\n|$))+", self.input.as_str()) {
            Some((_, rest)) => {
                self.input = rest;
            },
            None => {},
        }
        let n: usize = self.input.as_str().unicode_len();
        if n == 0 {
            return None;
        }
        let c: char = self.input.as_str().get_char(0);
        match bracket(c) {
            Some(t) => {
                let rest = String::from_str(self.input.as_str().substring_char(1, n));
                self.input = rest;
                assert(self.input@ =~= skip_blank(old(self)@).skip(1));
                return Some(t);
            },
            None => {},
        }
        match leading_match("^\".*?\"", self.input.as_str()) {
            Some((found, rest)) => {
                self.input = rest;
                return Some((TokenType::Str, found));
            },
            None => {},
        }
        match leading_match("^-?\\d+", self.input.as_str()) {
            Some((found, rest)) => {
                self.input = rest;
                return Some((TokenType::Number, found));
            },
            None => {},
        }
        match leading_match("^[^\\s\\{\\}()\\[\\]]+", self.input.as_str()) {
            Some((found, rest)) => {
                self.input = rest;
                Some(word(found))
            },
            None => None,
        }
    }
}

/// All the tokens of `input`, in order.
pub fn tokenize(input: &str) -> (r: Vec<Token>)
    ensures
        tokens_view(r@) == tokens_of(input@),
{
    let mut tokenizer = Tokenizer::new(input);
    let mut out: Vec<Token> = Vec::new();
    assert(tokens_view(out@) + tokens_of(tokenizer@) =~= tokens_of(input@));
    loop
        invariant
            tokens_of(input@) == tokens_view(out@) + tokens_of(tokenizer@),
        decreases tokenizer@.len(),
    {
        let ghost before = tokenizer@;
        let ghost prior = out@;
        proof {
            lemma_token_shortens(before);
        }
        match tokenizer.next() {
            Some(t) => {
                out.push(t);
                assert(tokens_view(out@) =~= tokens_view(prior) + seq![token_view(t)]);
                assert(tokens_view(prior) + (seq![token_view(t)] + tokens_of(tokenizer@))
                    =~= tokens_view(out@) + tokens_of(tokenizer@));
            },
            None => {
                assert(tokens_view(out@) + Seq::<(TokenType, Seq<char>)>::empty() =~= tokens_view(
                    out@,
                ));
                return out;
            },
        }
    }
}

} // verus!

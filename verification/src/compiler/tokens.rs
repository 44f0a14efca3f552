//! Splitting source code into tokens.

use vstd::prelude::*;

use crate::text::{chars_of, parse_i32, spec_parse_i32, string_of};

verus! {

/// # A token of source code
#[derive(Debug)]
pub enum Token {
    /// A comment: `#`, and the rest of the line
    Comment { text: String },
    /// A word that is no other token
    Identifier { name: String },
    /// A name, followed by `:`, that starts the definition of a function
    FunctionName { name: String },
    /// A number
    IntegerLiteral { value: i32 },
    /// `fn`, which starts a function
    KeywordFn,
    /// `end`, which ends a function
    KeywordEnd,
    /// `\`, which starts a branch
    BranchStart,
    /// `->`, which separates a branch's parameters from its body
    BranchBodyStart,
}

/// What a token holds, with its text as a sequence of characters
pub enum TokenView {
    Comment { text: Seq<char> },
    Identifier { name: Seq<char> },
    FunctionName { name: Seq<char> },
    IntegerLiteral { value: i32 },
    KeywordFn,
    KeywordEnd,
    BranchStart,
    BranchBodyStart,
}

/// What a token holds
pub open spec fn token_view(token: Token) -> TokenView {
    match token {
        Token::Comment { text } => TokenView::Comment { text: text@ },
        Token::Identifier { name } => TokenView::Identifier { name: name@ },
        Token::FunctionName { name } => TokenView::FunctionName { name: name@ },
        Token::IntegerLiteral { value } => TokenView::IntegerLiteral { value },
        Token::KeywordFn => TokenView::KeywordFn,
        Token::KeywordEnd => TokenView::KeywordEnd,
        Token::BranchStart => TokenView::BranchStart,
        Token::BranchBodyStart => TokenView::BranchBodyStart,
    }
}

/// What a sequence of tokens holds
pub open spec fn tokens_view(tokens: Seq<Token>) -> Seq<TokenView> {
    tokens.map_values(|t: Token| token_view(t))
}

/// Whether a character separates words
pub open spec fn is_whitespace(c: char) -> bool {
    c == ' ' || c == '\t' || c == '\n' || c == '\r'
}

/// The token that a word (a run of characters that are not whitespace) is
pub open spec fn word_token(word: Seq<char>) -> TokenView {
    if word == seq!['f', 'n'] {
        TokenView::KeywordFn
    } else if word == seq!['e', 'n', 'd'] {
        TokenView::KeywordEnd
    } else if word == seq!['\\'] {
        TokenView::BranchStart
    } else if word == seq!['-', '>'] {
        TokenView::BranchBodyStart
    } else if word.len() > 1 && word.last() == ':' {
        TokenView::FunctionName { name: word.drop_last() }
    } else if spec_parse_i32(word) is Some {
        TokenView::IntegerLiteral { value: spec_parse_i32(word)->0 }
    } else {
        TokenView::Identifier { name: word }
    }
}

/// The index of the first character at or after `i` for which `stop` holds,
/// or the length of the input if there is none
pub open spec fn scan(input: Seq<char>, i: int, stop: spec_fn(char) -> bool) -> int
    decreases input.len() - i,
{
    if i >= input.len() || i < 0 {
        input.len() as int
    } else if stop(input[i]) {
        i
    } else {
        scan(input, i + 1, stop)
    }
}

/// The tokens of the input, from index `i` on
///
/// Whitespace separates tokens. A `#` starts a comment, which takes the rest
/// of the line. Any other run of characters that are not whitespace is a
/// word.
pub open spec fn tokens_from(input: Seq<char>, i: int) -> Seq<TokenView>
    decreases input.len() - i,
{
    if i >= input.len() || i < 0 {
        Seq::empty()
    } else if is_whitespace(input[i]) {
        tokens_from(input, i + 1)
    } else if input[i] == '#' {
        let end = scan(input, i + 1, |c: char| c == '\n');
        proof {
            lemma_scan_bounds(input, i + 1, |c: char| c == '\n');
        }
        seq![TokenView::Comment { text: input.subrange(i + 1, end) }] + tokens_from(input, end)
    } else {
        let end = scan(input, i, |c: char| is_whitespace(c));
        proof {
            lemma_scan_bounds(input, i, |c: char| is_whitespace(c));
        }
        seq![word_token(input.subrange(i, end))] + tokens_from(input, end)
    }
}

/// A scan ends within the input, after where it started, at the first
/// character where it stops
pub proof fn lemma_scan_bounds(input: Seq<char>, i: int, stop: spec_fn(char) -> bool)
    requires
        0 <= i <= input.len(),
    ensures
        i <= scan(input, i, stop) <= input.len(),
        scan(input, i, stop) < input.len() ==> stop(input[scan(input, i, stop)]),
        forall|k: int| i <= k < scan(input, i, stop) ==> !stop(#[trigger] input[k]),
    decreases input.len() - i,
{
    if i < input.len() && !stop(input[i]) {
        lemma_scan_bounds(input, i + 1, stop);
    }
}

/// Find where a scan that starts at `start` stops
fn scan_exec(input: &Vec<char>, start: usize, comment: bool) -> (result: usize)
    requires
        start <= input@.len(),
    ensures
        result == scan(
            input@,
            start as int,
            if comment {
                |c: char| c == '\n'
            } else {
                |c: char| is_whitespace(c)
            },
        ),
{
    let ghost stop = if comment {
        |c: char| c == '\n'
    } else {
        |c: char| is_whitespace(c)
    };
    let mut i = start;
    while i < input.len()
        invariant
            start <= i <= input@.len(),
            scan(input@, start as int, stop) == scan(input@, i as int, stop),
            stop == (if comment {
                |c: char| c == '\n'
            } else {
                |c: char| is_whitespace(c)
            }),
        decreases input@.len() - i,
    {
        let c = input[i];
        let stops = if comment {
            c == '\n'
        } else {
            c == ' ' || c == '\t' || c == '\n' || c == '\r'
        };
        if stops {
            return i;
        }
        i = i + 1;
    }
    i
}

/// The characters of the input from `start` to `end`
fn collect(input: &Vec<char>, start: usize, end: usize) -> (result: Vec<char>)
    requires
        start <= end <= input@.len(),
    ensures
        result@ == input@.subrange(start as int, end as int),
{
    let mut result: Vec<char> = Vec::new();
    let mut i = start;
    while i < end
        invariant
            start <= i <= end <= input@.len(),
            result@ == input@.subrange(start as int, i as int),
        decreases end - i,
    {
        result.push(input[i]);
        i = i + 1;
        assert(result@ =~= input@.subrange(start as int, i as int));
    }
    result
}

/// Whether two character sequences are equal
fn is_word(word: &Vec<char>, expected: &Vec<char>) -> (result: bool)
    ensures
        result == (word@ == expected@),
{
    crate::language::chars_equal(word, expected)
}

/// The token that a word is
fn word_to_token(word: Vec<char>) -> (result: Token)
    ensures
        token_view(result) == word_token(word@),
{
    let keyword_fn = vec!['f', 'n'];
    let keyword_end = vec!['e', 'n', 'd'];
    let branch_start = vec!['\\'];
    let branch_body_start = vec!['-', '>'];
    assert(keyword_fn@ =~= seq!['f', 'n']);
    assert(keyword_end@ =~= seq!['e', 'n', 'd']);
    assert(branch_start@ =~= seq!['\\']);
    assert(branch_body_start@ =~= seq!['-', '>']);
    if is_word(&word, &keyword_fn) {
        return Token::KeywordFn;
    }
    if is_word(&word, &keyword_end) {
        return Token::KeywordEnd;
    }
    if is_word(&word, &branch_start) {
        return Token::BranchStart;
    }
    if is_word(&word, &branch_body_start) {
        return Token::BranchBodyStart;
    }
    let len = word.len();
    if len > 1 && word[len - 1] == ':' {
        let name = collect(&word, 0, len - 1);
        assert(name@ =~= word@.drop_last());
        return Token::FunctionName { name: string_of(name.as_slice()) };
    }
    match parse_i32(&word) {
        Some(value) => Token::IntegerLiteral { value },
        None => Token::Identifier { name: string_of(word.as_slice()) },
    }
}

/// # Split source code into tokens
pub fn tokenize(input: &str) -> (result: Vec<Token>)
    ensures
        tokens_view(result@) == tokens_from(input@, 0),
{
    let chars = chars_of(input);
    let mut result: Vec<Token> = Vec::new();
    let mut i: usize = 0;
    while i < chars.len()
        invariant
            i <= chars@.len(),
            chars@ == input@,
            tokens_view(result@) + tokens_from(chars@, i as int) == tokens_from(chars@, 0),
        decreases chars@.len() - i,
    {
        let c = chars[i];
        if c == ' ' || c == '\t' || c == '\n' || c == '\r' {
            i = i + 1;
        } else if c == '#' {
            let end = scan_exec(&chars, i + 1, true);
            proof {
                lemma_scan_bounds(chars@, i + 1, |c: char| c == '\n');
            }
            let text = collect(&chars, i + 1, end);
            let token = Token::Comment { text: string_of(text.as_slice()) };
            let ghost before = result@;
            result.push(token);
            proof {
                assert(tokens_view(result@) =~= tokens_view(before).push(token_view(token)));
                assert(tokens_view(result@) + tokens_from(chars@, end as int) =~= tokens_view(before)
                    + tokens_from(chars@, i as int));
            }
            i = end;
        } else {
            let end = scan_exec(&chars, i, false);
            proof {
                lemma_scan_bounds(chars@, i as int, |c: char| is_whitespace(c));
            }
            let word = collect(&chars, i, end);
            let token = word_to_token(word);
            let ghost before = result@;
            result.push(token);
            proof {
                assert(tokens_view(result@) =~= tokens_view(before).push(token_view(token)));
                assert(tokens_view(result@) + tokens_from(chars@, end as int) =~= tokens_view(before)
                    + tokens_from(chars@, i as int));
            }
            i = end;
        }
    }
    assert(tokens_view(result@) =~= tokens_view(result@) + tokens_from(chars@, i as int));
    result
}

} // verus!

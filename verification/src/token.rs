//! The tokenizer: a line of text becomes a sequence of typed tokens.
use vstd::prelude::*;
use vstd::string::StrSliceExecFns;
use vstd::string::StringExecFns;
use crate::num::{dot_count, is_number_text};
use crate::CalcError;
use crate::ErrorV;

verus! {

/// The kind of a token.  `Whitespace` is transient: it is recognized and
/// discarded by the tokenizer and never appears in its output.
#[derive(Clone, Copy, Debug, PartialEq, Eq, Structural)]
pub enum TokenType {
    Equal,
    Number,
    Identifier,
    Let,
    Minus,
    Asterisk,
    Slash,
    ParenthesisLeft,
    ParenthesisRight,
    Percent,
    Plus,
    Whitespace,
}

/// One lexical unit: its kind and its literal text.
#[derive(Debug, PartialEq, Eq)]
pub struct Token {
    pub t_type: TokenType,
    pub value: String,
}

/// The mathematical view of a [`Token`]: the same kind, the text as a
/// sequence of characters.
pub struct TokenV {
    pub t_type: TokenType,
    pub value: Seq<char>,
}

impl View for Token {
    type V = TokenV;

    open spec fn view(&self) -> TokenV {
        TokenV { t_type: self.t_type, value: self.value@ }
    }
}

/// The views of a sequence of tokens.
pub open spec fn views_of(ts: Seq<Token>) -> Seq<TokenV> {
    ts.map_values(|t: Token| t@)
}

/// `c` is an ASCII decimal digit.
pub open spec fn is_digit(c: char) -> bool {
    48 <= c as u32 && c as u32 <= 57
}

/// `c` may start an identifier run: an ASCII letter or an underscore.
pub open spec fn is_ident_start(c: char) -> bool {
    (65 <= c as u32 && c as u32 <= 90) || (97 <= c as u32 && c as u32 <= 122) || c as u32 == 95
}

/// `c` may continue an identifier run: a letter, a digit or an underscore.
pub open spec fn is_ident_char(c: char) -> bool {
    is_ident_start(c) || is_digit(c)
}

/// The token kind of a single-character symbol, if `c` is one.
pub open spec fn symbol_kind(c: char) -> Option<TokenType> {
    if c == '=' {
        Some(TokenType::Equal)
    } else if c == '+' {
        Some(TokenType::Plus)
    } else if c == '-' {
        Some(TokenType::Minus)
    } else if c == '*' {
        Some(TokenType::Asterisk)
    } else if c == '/' {
        Some(TokenType::Slash)
    } else if c == '(' {
        Some(TokenType::ParenthesisLeft)
    } else if c == ')' {
        Some(TokenType::ParenthesisRight)
    } else if c == '%' {
        Some(TokenType::Percent)
    } else {
        None
    }
}

/// The token class that a single character opens: a symbol maps to its kind,
/// a space to `Whitespace`, a digit starts a number run, a letter or an
/// underscore starts an identifier run, and any other character is a lexical
/// error.
pub open spec fn spec_char_kind(c: char) -> Result<TokenType, ErrorV> {
    if c == ' ' {
        Ok(TokenType::Whitespace)
    } else if is_digit(c) {
        Ok(TokenType::Number)
    } else if is_ident_start(c) {
        Ok(TokenType::Identifier)
    } else {
        match symbol_kind(c) {
            Some(t) => Ok(t),
            None => Err(ErrorV::LexError { ch: c }),
        }
    }
}

/// The text of the number run that opens `s`: greedily, digits and at most
/// one decimal point (`seen_dot` says whether the point was already taken);
/// a second point ends the run without being consumed.
pub open spec fn spec_num_run(s: Seq<char>, seen_dot: bool) -> Seq<char>
    decreases s.len(),
{
    if s.len() == 0 {
        Seq::empty()
    } else if is_digit(s[0]) {
        seq![s[0]] + spec_num_run(s.skip(1), seen_dot)
    } else if s[0] == '.' && !seen_dot {
        seq![s[0]] + spec_num_run(s.skip(1), true)
    } else {
        Seq::empty()
    }
}

/// The text of the identifier run that opens `s`: greedily, letters, digits
/// and underscores.
pub open spec fn spec_ident_run(s: Seq<char>) -> Seq<char>
    decreases s.len(),
{
    if s.len() == 0 {
        Seq::empty()
    } else if is_ident_char(s[0]) {
        seq![s[0]] + spec_ident_run(s.skip(1))
    } else {
        Seq::empty()
    }
}

/// A number run is never longer than the text it opens.
pub proof fn lemma_num_run_len(s: Seq<char>, seen_dot: bool)
    ensures
        spec_num_run(s, seen_dot).len() <= s.len(),
    decreases s.len(),
{
    if s.len() > 0 && (is_digit(s[0]) || (s[0] == '.' && !seen_dot)) {
        lemma_num_run_len(s.skip(1), seen_dot || s[0] == '.');
        if is_digit(s[0]) {
            lemma_num_run_len(s.skip(1), seen_dot);
        }
    }
}

/// An identifier run is never longer than the text it opens.
pub proof fn lemma_ident_run_len(s: Seq<char>)
    ensures
        spec_ident_run(s).len() <= s.len(),
    decreases s.len(),
{
    if s.len() > 0 && is_ident_char(s[0]) {
        lemma_ident_run_len(s.skip(1));
    }
}

/// The token for an identifier run: the reserved word `let` becomes a `Let`
/// token, any other text an `Identifier` token.
pub open spec fn ident_token(text: Seq<char>) -> TokenV {
    if text == "let"@ {
        TokenV { t_type: TokenType::Let, value: text }
    } else {
        TokenV { t_type: TokenType::Identifier, value: text }
    }
}

/// What tokenizing `s` yields: the tokens in source order, or the first
/// character that matches no token rule.  Spaces are discarded; a digit opens
/// a number run; a letter or an underscore opens an identifier run.
pub open spec fn spec_tokenize(s: Seq<char>) -> Result<Seq<TokenV>, ErrorV>
    decreases s.len(),
    via spec_tokenize_decreases
{
    if s.len() == 0 {
        Ok(Seq::empty())
    } else if s[0] == ' ' {
        spec_tokenize(s.skip(1))
    } else if is_digit(s[0]) {
        let text = spec_num_run(s, false);
        match spec_tokenize(s.skip(text.len() as int)) {
            Ok(rest) => Ok(seq![TokenV { t_type: TokenType::Number, value: text }] + rest),
            Err(e) => Err(e),
        }
    } else if is_ident_start(s[0]) {
        let text = spec_ident_run(s);
        match spec_tokenize(s.skip(text.len() as int)) {
            Ok(rest) => Ok(seq![ident_token(text)] + rest),
            Err(e) => Err(e),
        }
    } else {
        match symbol_kind(s[0]) {
            Some(t) => match spec_tokenize(s.skip(1)) {
                Ok(rest) => Ok(seq![TokenV { t_type: t, value: seq![s[0]] }] + rest),
                Err(e) => Err(e),
            },
            None => Err(ErrorV::LexError { ch: s[0] }),
        }
    }
}

#[via_fn]
proof fn spec_tokenize_decreases(s: Seq<char>) {
    if s.len() > 0 {
        if is_digit(s[0]) {
            lemma_num_run_len(s, false);
            assert(spec_num_run(s, false).len() >= 1);
        } else if is_ident_start(s[0]) {
            lemma_ident_run_len(s);
            assert(spec_ident_run(s).len() >= 1);
        }
    }
}

/// Relies on `String::push` of std: it appends the given character to the
/// end of the string.
#[verifier::external_body]
fn push_char(s: &mut String, c: char)
    ensures
        final(s)@ == old(s)@.push(c),
{
    s.push(c);
}

/// Classifies one character, as [`spec_char_kind`] says.
pub fn get_token_type(ch: &char) -> (r: Result<TokenType, CalcError>)
    ensures
        match r {
            Ok(t) => spec_char_kind(*ch) == Ok::<TokenType, ErrorV>(t),
            Err(e) => spec_char_kind(*ch) == Err::<TokenType, ErrorV>(e@),
        },
{
    let c = *ch;
    if c == ' ' {
        Ok(TokenType::Whitespace)
    } else if c == '=' {
        Ok(TokenType::Equal)
    } else if c == '+' {
        Ok(TokenType::Plus)
    } else if c == '-' {
        Ok(TokenType::Minus)
    } else if c == '*' {
        Ok(TokenType::Asterisk)
    } else if c == '/' {
        Ok(TokenType::Slash)
    } else if c == '(' {
        Ok(TokenType::ParenthesisLeft)
    } else if c == ')' {
        Ok(TokenType::ParenthesisRight)
    } else if c == '%' {
        Ok(TokenType::Percent)
    } else {
        let u: u32 = c as u32;
        if 48 <= u && u <= 57 {
            Ok(TokenType::Number)
        } else if (65 <= u && u <= 90) || (97 <= u && u <= 122) || u == 95 {
            Ok(TokenType::Identifier)
        } else {
            Err(CalcError::LexError { ch: c })
        }
    }
}

/// Pops the number run off the tail of `char_vec` (the characters are held
/// in reverse source order, the next one at the tail) and returns its text.
pub fn read_number(char_vec: &mut Vec<char>) -> (r: String)
    ensures
        ({
            let s = old(char_vec)@.reverse();
            let t = spec_num_run(s, false);
            r@ == t && final(char_vec)@ == old(char_vec)@.take(old(char_vec)@.len() - t.len())
        }),
{
    let ghost orig = char_vec@.reverse();
    let mut text = String::new();
    let mut seen_dot = false;
    loop
        invariant
            text@ + spec_num_run(char_vec@.reverse(), seen_dot) == spec_num_run(orig, false),
            char_vec@ == old(char_vec)@.take(old(char_vec)@.len() - text@.len()),
            text@.len() <= old(char_vec)@.len(),
        ensures
            text@ == spec_num_run(orig, false),
            char_vec@ == old(char_vec)@.take(old(char_vec)@.len() - text@.len()),
        decreases char_vec@.len(),
    {
        proof {
            assert(char_vec@.reverse().len() == char_vec@.len());
        }
        if char_vec.len() == 0 {
            proof {
                assert(spec_num_run(char_vec@.reverse(), seen_dot) == Seq::<char>::empty());
                assert(text@ + Seq::<char>::empty() =~= text@);
            }
            break;
        }
        let ghost rem = char_vec@.reverse();
        proof {
            assert(rem[0] == char_vec@[char_vec@.len() - 1]);
        }
        let ch = char_vec.pop().unwrap();
        let u: u32 = ch as u32;
        let take_it = (48 <= u && u <= 57) || (ch == '.' && !seen_dot);
        if !take_it {
            char_vec.push(ch);
            proof {
                assert(char_vec@ =~= old(char_vec)@.take(old(char_vec)@.len() - text@.len()));
                assert(spec_num_run(rem, seen_dot) == Seq::<char>::empty());
                assert(text@ + Seq::<char>::empty() =~= text@);
            }
            break;
        }
        if ch == '.' {
            proof {
                assert(spec_num_run(rem, seen_dot) == seq![rem[0]] + spec_num_run(
                    rem.skip(1),
                    true,
                ));
            }
            seen_dot = true;
        } else {
            proof {
                assert(is_digit(rem[0]));
                assert(spec_num_run(rem, seen_dot) == seq![rem[0]] + spec_num_run(
                    rem.skip(1),
                    seen_dot,
                ));
            }
        }
        let ghost pre = text@;
        push_char(&mut text, ch);
        proof {
            assert(char_vec@.reverse() =~= rem.skip(1));
            assert(pre + (seq![ch] + spec_num_run(rem.skip(1), seen_dot)) =~= text@
                + spec_num_run(rem.skip(1), seen_dot));
            assert(char_vec@ =~= old(char_vec)@.take(old(char_vec)@.len() - text@.len()));
        }
    }
    text
}

/// Pops the identifier run off the tail of `char_vec` (held in reverse
/// source order) and returns its text.
fn read_identifier(char_vec: &mut Vec<char>) -> (r: String)
    ensures
        ({
            let s = old(char_vec)@.reverse();
            let t = spec_ident_run(s);
            r@ == t && final(char_vec)@ == old(char_vec)@.take(old(char_vec)@.len() - t.len())
        }),
{
    let ghost orig = char_vec@.reverse();
    let mut text = String::new();
    loop
        invariant
            text@ + spec_ident_run(char_vec@.reverse()) == spec_ident_run(orig),
            char_vec@ == old(char_vec)@.take(old(char_vec)@.len() - text@.len()),
            text@.len() <= old(char_vec)@.len(),
        ensures
            text@ == spec_ident_run(orig),
            char_vec@ == old(char_vec)@.take(old(char_vec)@.len() - text@.len()),
        decreases char_vec@.len(),
    {
        proof {
            assert(char_vec@.reverse().len() == char_vec@.len());
        }
        if char_vec.len() == 0 {
            proof {
                assert(spec_ident_run(char_vec@.reverse()) == Seq::<char>::empty());
                assert(text@ + Seq::<char>::empty() =~= text@);
            }
            break;
        }
        let ghost rem = char_vec@.reverse();
        proof {
            assert(rem[0] == char_vec@[char_vec@.len() - 1]);
        }
        let ch = char_vec.pop().unwrap();
        let u: u32 = ch as u32;
        let take_it = (48 <= u && u <= 57) || (65 <= u && u <= 90) || (97 <= u && u <= 122) || u
            == 95;
        if !take_it {
            char_vec.push(ch);
            proof {
                assert(char_vec@ =~= old(char_vec)@.take(old(char_vec)@.len() - text@.len()));
                assert(spec_ident_run(rem) == Seq::<char>::empty());
                assert(text@ + Seq::<char>::empty() =~= text@);
            }
            break;
        }
        proof {
            assert(is_ident_char(rem[0]));
            assert(spec_ident_run(rem) == seq![rem[0]] + spec_ident_run(rem.skip(1)));
        }
        let ghost pre = text@;
        push_char(&mut text, ch);
        proof {
            assert(char_vec@.reverse() =~= rem.skip(1));
            assert(pre + (seq![ch] + spec_ident_run(rem.skip(1))) =~= text@ + spec_ident_run(
                rem.skip(1),
            ));
            assert(char_vec@ =~= old(char_vec)@.take(old(char_vec)@.len() - text@.len()));
        }
    }
    text
}

/// Tokenizes one line, as [`spec_tokenize`] says: the tokens in source
/// order, or the first character that matches no token rule.
pub fn tokenize(sentence: &str) -> (r: Result<Vec<Token>, CalcError>)
    ensures
        match spec_tokenize(sentence@) {
            Ok(ts) => r matches Ok(v) && views_of(v@) == ts,
            Err(e) => r matches Err(err) && err@ == e,
        },
{
    let n = sentence.unicode_len();
    let mut char_vec: Vec<char> = Vec::new();
    let mut i: usize = 0;
    while i < n
        invariant
            i <= n,
            n == sentence@.len(),
            char_vec@ == sentence@.skip(n - i).reverse(),
        decreases n - i,
    {
        let c = sentence.get_char(n - 1 - i);
        char_vec.push(c);
        i = i + 1;
        proof {
            assert(char_vec@ =~= sentence@.skip(n - i).reverse());
        }
    }
    proof {
        assert(char_vec@.reverse() =~= sentence@);
    }

    let mut tokens: Vec<Token> = Vec::new();
    proof {
        assert(views_of(tokens@) =~= Seq::<TokenV>::empty());
        if spec_tokenize(sentence@) is Ok {
            let ts = spec_tokenize(sentence@)->Ok_0;
            assert(views_of(tokens@) + ts =~= ts);
        }
    }
    loop
        invariant
            match spec_tokenize(char_vec@.reverse()) {
                Ok(ts) => spec_tokenize(sentence@) == Ok::<Seq<TokenV>, ErrorV>(
                    views_of(tokens@) + ts,
                ),
                Err(e) => spec_tokenize(sentence@) == Err::<Seq<TokenV>, ErrorV>(e),
            },
        ensures
            spec_tokenize(sentence@) == Ok::<Seq<TokenV>, ErrorV>(views_of(tokens@)),
        decreases char_vec@.len(),
    {
        proof {
            assert(char_vec@.reverse().len() == char_vec@.len());
        }
        if char_vec.len() == 0 {
            proof {
                assert(spec_tokenize(char_vec@.reverse()) == Ok::<Seq<TokenV>, ErrorV>(
                    Seq::empty(),
                ));
                assert(views_of(tokens@) + Seq::<TokenV>::empty() =~= views_of(tokens@));
            }
            break;
        }
        let ghost rem = char_vec@.reverse();
        proof {
            assert(rem[0] == char_vec@[char_vec@.len() - 1]);
        }
        let ch = char_vec.pop().unwrap();
        proof {
            assert(char_vec@.reverse() =~= rem.skip(1));
        }
        if ch == ' ' {
            // whitespace is discarded
        } else {
            let u: u32 = ch as u32;
            if 48 <= u && u <= 57 {
                // a digit opens a number run
                char_vec.push(ch);
                proof {
                    assert(char_vec@.reverse() =~= rem);
                }
                let ghost pre = char_vec@;
                let value = read_number(&mut char_vec);
                let ghost text = spec_num_run(rem, false);
                proof {
                    lemma_num_run_len(rem, false);
                    assert(char_vec@.reverse() =~= rem.skip(text.len() as int)) by {
                        assert(char_vec@ == pre.take(pre.len() - text.len()));
                        assert(pre.reverse() == rem);
                    }
                }
                let ghost done = views_of(tokens@);
                tokens.push(Token { t_type: TokenType::Number, value });
                proof {
                    let tv = TokenV { t_type: TokenType::Number, value: text };
                    assert(views_of(tokens@) =~= done.push(tv));
                    if spec_tokenize(rem.skip(text.len() as int)) is Ok {
                        let ts2 = spec_tokenize(rem.skip(text.len() as int))->Ok_0;
                        assert(done + (seq![tv] + ts2) =~= done.push(tv) + ts2);
                    }
                }
            } else if (65 <= u && u <= 90) || (97 <= u && u <= 122) || u == 95 {
                // a letter or an underscore opens an identifier run
                char_vec.push(ch);
                proof {
                    assert(char_vec@.reverse() =~= rem);
                }
                let ghost pre = char_vec@;
                let value = read_identifier(&mut char_vec);
                let ghost text = spec_ident_run(rem);
                proof {
                    lemma_ident_run_len(rem);
                    assert(char_vec@.reverse() =~= rem.skip(text.len() as int)) by {
                        assert(char_vec@ == pre.take(pre.len() - text.len()));
                        assert(pre.reverse() == rem);
                    }
                }
                let reserved = String::from_str("let");
                let is_let = value == reserved;
                let t_type = if is_let {
                    TokenType::Let
                } else {
                    TokenType::Identifier
                };
                let ghost done = views_of(tokens@);
                tokens.push(Token { t_type, value });
                proof {
                    let tv = ident_token(text);
                    assert(views_of(tokens@) =~= done.push(tv));
                    if spec_tokenize(rem.skip(text.len() as int)) is Ok {
                        let ts2 = spec_tokenize(rem.skip(text.len() as int))->Ok_0;
                        assert(done + (seq![tv] + ts2) =~= done.push(tv) + ts2);
                    }
                }
            } else {
                let kind = match get_token_type(&ch) {
                    Ok(t) => t,
                    Err(e) => {
                        proof {
                            assert(spec_char_kind(rem[0]) == Err::<TokenType, ErrorV>(e@));
                            assert(spec_tokenize(rem) == Err::<Seq<TokenV>, ErrorV>(e@));
                        }
                        return Err(e);
                    },
                };
                let mut value = String::new();
                push_char(&mut value, ch);
                let ghost done = views_of(tokens@);
                tokens.push(Token { t_type: kind, value });
                proof {
                    assert(spec_char_kind(rem[0]) == Ok::<TokenType, ErrorV>(kind));
                    assert(symbol_kind(rem[0]) == Some(kind));
                    let tv = TokenV { t_type: kind, value: seq![rem[0]] };
                    assert(Seq::<char>::empty().push(ch) =~= seq![rem[0]]);
                    assert(views_of(tokens@) =~= done.push(tv));
                    if spec_tokenize(rem.skip(1)) is Ok {
                        let ts2 = spec_tokenize(rem.skip(1))->Ok_0;
                        assert(done + (seq![tv] + ts2) =~= done.push(tv) + ts2);
                    }
                }
            }
        }
    }
    Ok(tokens)
}

/// A token as the tokenizer makes one: a number's text is a decimal
/// literal, an identifier's text is non-empty and is not the reserved word.
pub open spec fn wf_token(t: TokenV) -> bool {
    match t.t_type {
        TokenType::Number => is_number_text(t.value),
        TokenType::Identifier => t.value.len() > 0 && t.value != "let"@,
        _ => true,
    }
}

/// Every token of a sequence is well formed.
pub open spec fn wf_tokens(ts: Seq<TokenV>) -> bool {
    forall|i: int| 0 <= i < ts.len() ==> wf_token(ts[i])
}

/// Prepending a character adds its own contribution to the decimal-point
/// count.
proof fn lemma_dot_count_cons(c: char, r: Seq<char>)
    ensures
        dot_count(seq![c] + r) == dot_count(r) + if c == '.' {
            1nat
        } else {
            0nat
        },
    decreases r.len(),
{
    let s = seq![c] + r;
    if r.len() == 0 {
        assert(s.drop_last() =~= Seq::<char>::empty());
        assert(s.last() == c);
        assert(dot_count(Seq::<char>::empty()) == 0);
    } else {
        lemma_dot_count_cons(c, r.drop_last());
        assert(s.drop_last() =~= seq![c] + r.drop_last());
        assert(s.last() == r.last());
    }
}

/// Every character of a number run is a digit or a point, and the run
/// holds at most one point — none when one was already seen.
proof fn lemma_num_run_wf(s: Seq<char>, seen_dot: bool)
    ensures
        forall|i: int|
            0 <= i < spec_num_run(s, seen_dot).len() ==> (is_digit(spec_num_run(s, seen_dot)[i])
                || spec_num_run(s, seen_dot)[i] == '.'),
        seen_dot ==> dot_count(spec_num_run(s, seen_dot)) == 0,
        !seen_dot ==> dot_count(spec_num_run(s, seen_dot)) <= 1,
    decreases s.len(),
{
    let run = spec_num_run(s, seen_dot);
    if s.len() == 0 {
    } else if is_digit(s[0]) {
        let inner = spec_num_run(s.skip(1), seen_dot);
        lemma_num_run_wf(s.skip(1), seen_dot);
        lemma_dot_count_cons(s[0], inner);
        assert forall|i: int| 0 <= i < run.len() implies (is_digit(run[i]) || run[i]
            == '.') by {
            if i > 0 {
                assert(run[i] == inner[i - 1]);
            }
        }
    } else if s[0] == '.' && !seen_dot {
        let inner = spec_num_run(s.skip(1), true);
        lemma_num_run_wf(s.skip(1), true);
        lemma_dot_count_cons('.', inner);
        assert forall|i: int| 0 <= i < run.len() implies (is_digit(run[i]) || run[i]
            == '.') by {
            if i > 0 {
                assert(run[i] == inner[i - 1]);
            }
        }
    }
}

/// The data model's token invariant holds of whatever the tokenizer
/// yields: every token is well formed.
pub proof fn lemma_tokenize_wf(s: Seq<char>)
    ensures
        spec_tokenize(s) matches Ok(ts) ==> wf_tokens(ts),
    decreases s.len(),
{
    if s.len() == 0 {
    } else if s[0] == ' ' {
        lemma_tokenize_wf(s.skip(1));
    } else if is_digit(s[0]) {
        let text = spec_num_run(s, false);
        lemma_num_run_len(s, false);
        lemma_num_run_wf(s, false);
        lemma_tokenize_wf(s.skip(text.len() as int));
        assert(text[0] == s[0]);
        assert(is_number_text(text));
        match spec_tokenize(s.skip(text.len() as int)) {
            Ok(rest) => {
                let tok = TokenV { t_type: TokenType::Number, value: text };
                let ts = seq![tok] + rest;
                assert forall|i: int| 0 <= i < ts.len() implies wf_token(ts[i]) by {
                    if i > 0 {
                        assert(ts[i] == rest[i - 1]);
                    }
                }
            },
            Err(e) => {},
        }
    } else if is_ident_start(s[0]) {
        let text = spec_ident_run(s);
        lemma_ident_run_len(s);
        lemma_tokenize_wf(s.skip(text.len() as int));
        assert(text[0] == s[0]);
        match spec_tokenize(s.skip(text.len() as int)) {
            Ok(rest) => {
                let tok = ident_token(text);
                let ts = seq![tok] + rest;
                assert(wf_token(tok));
                assert forall|i: int| 0 <= i < ts.len() implies wf_token(ts[i]) by {
                    if i > 0 {
                        assert(ts[i] == rest[i - 1]);
                    }
                }
            },
            Err(e) => {},
        }
    } else {
        match symbol_kind(s[0]) {
            Some(t) => {
                lemma_tokenize_wf(s.skip(1));
                match spec_tokenize(s.skip(1)) {
                    Ok(rest) => {
                        let tok = TokenV { t_type: t, value: seq![s[0]] };
                        let ts = seq![tok] + rest;
                        assert forall|i: int| 0 <= i < ts.len() implies wf_token(ts[i]) by {
                            if i > 0 {
                                assert(ts[i] == rest[i - 1]);
                            }
                        }
                    },
                    Err(e) => {},
                }
            },
            None => {},
        }
    }
}

} // verus!

//! Writing tokens out as source text, and the proof that tokenizing the
//! text gives the tokens back.

use crate::message::{decimal_text, digit_char};
use crate::remaining::rest_after;
use crate::token::{Keyword, SpecToken};
use crate::tokenizer::{
    continues_word, decimal_value, digit_value, first_lexeme, is_digit, is_space, keyword_named,
    lemma_lex_ends_with_eof, lemma_lex_skips_space, lemma_run_len_bound, lemma_run_len_is, lex,
    lexeme, run_len, starts_word, uppercase, word_token, Run,
};
use vstd::prelude::*;

verus! {

/// The decimal spelling of a number is made of digits, and reads back as
/// the number.
pub proof fn lemma_decimal_text_reads_back(n: nat)
    ensures
        decimal_text(n).len() >= 1,
        forall|i: int| 0 <= i < decimal_text(n).len() ==> is_digit(#[trigger] decimal_text(n)[i]),
        decimal_value(decimal_text(n)) == n,
    decreases n,
{
    if n < 10 {
        let text = decimal_text(n);
        assert(text.drop_last() =~= Seq::<char>::empty());
        assert(decimal_value(text.drop_last()) == 0);
        assert(digit_value(digit_char(n)) == n);
    } else {
        let head = decimal_text(n / 10);
        let text = decimal_text(n);
        lemma_decimal_text_reads_back(n / 10);
        assert(text.drop_last() =~= head);
        assert(digit_value(digit_char(n % 10)) == n % 10);
    }
}

/// Where a run of accepted characters stands before a character that is
/// not accepted, the run ends there.
pub proof fn lemma_run_ends(run: Run, text: Seq<char>, stop: char, rest: Seq<char>)
    requires
        forall|i: int| 0 <= i < text.len() ==> run.accepts(#[trigger] text[i]),
        !run.accepts(stop),
    ensures
        run_len(text + (seq![stop] + rest), run) == text.len(),
{
    let all = text + (seq![stop] + rest);
    assert forall|i: int| 0 <= i < text.len() implies run.accepts(#[trigger] all[i]) by {
        assert(all[i] == text[i]);
    }
    assert(all[text.len() as int] == stop);
    lemma_run_len_is(all, run, text.len());
}

/// A keyword in upper case.
pub open spec fn keyword_source(k: Keyword) -> Seq<char> {
    match k {
        Keyword::Select => "SELECT"@,
        Keyword::Create => "CREATE"@,
        Keyword::Table => "TABLE"@,
        Keyword::Where => "WHERE"@,
        Keyword::Order => "ORDER"@,
        Keyword::By => "BY"@,
        Keyword::Asc => "ASC"@,
        Keyword::Desc => "DESC"@,
        Keyword::From => "FROM"@,
        Keyword::And => "AND"@,
        Keyword::Or => "OR"@,
        Keyword::Not => "NOT"@,
        Keyword::True => "TRUE"@,
        Keyword::False => "FALSE"@,
        Keyword::Primary => "PRIMARY"@,
        Keyword::Key => "KEY"@,
        Keyword::Check => "CHECK"@,
        Keyword::Int => "INT"@,
        Keyword::Bool => "BOOL"@,
        Keyword::Varchar => "VARCHAR"@,
        Keyword::Null => "NULL"@,
    }
}

/// Whether a text is a word: a letter or an underscore, and then letters,
/// digits and underscores.
pub open spec fn is_word(w: Seq<char>) -> bool {
    &&& w.len() >= 1
    &&& starts_word(w[0])
    &&& forall|i: int| 0 <= i < w.len() ==> continues_word(#[trigger] w[i])
}

/// A keyword in upper case is a word, is named by its own spelling, and is
/// read as that keyword.
pub proof fn lemma_keyword_source_is_read(k: Keyword)
    ensures
        is_word(keyword_source(k)),
        uppercase(keyword_source(k)) == keyword_source(k),
        keyword_named(keyword_source(k)) == Some(k),
        word_token(keyword_source(k)) == SpecToken::Keyword(k),
{
    reveal_strlit("SELECT");
    reveal_strlit("CREATE");
    reveal_strlit("TABLE");
    reveal_strlit("WHERE");
    reveal_strlit("ORDER");
    reveal_strlit("BY");
    reveal_strlit("ASC");
    reveal_strlit("DESC");
    reveal_strlit("FROM");
    reveal_strlit("AND");
    reveal_strlit("OR");
    reveal_strlit("NOT");
    reveal_strlit("TRUE");
    reveal_strlit("FALSE");
    reveal_strlit("PRIMARY");
    reveal_strlit("KEY");
    reveal_strlit("CHECK");
    reveal_strlit("INT");
    reveal_strlit("BOOL");
    reveal_strlit("VARCHAR");
    reveal_strlit("NULL");
    // No two keywords agree in their length and their first two letters.
    assert("SELECT"@.len() == 6 && "SELECT"@[0] == 'S' && "SELECT"@[1] == 'E');
    assert("CREATE"@.len() == 6 && "CREATE"@[0] == 'C' && "CREATE"@[1] == 'R');
    assert("TABLE"@.len() == 5 && "TABLE"@[0] == 'T' && "TABLE"@[1] == 'A');
    assert("WHERE"@.len() == 5 && "WHERE"@[0] == 'W' && "WHERE"@[1] == 'H');
    assert("ORDER"@.len() == 5 && "ORDER"@[0] == 'O' && "ORDER"@[1] == 'R');
    assert("BY"@.len() == 2 && "BY"@[0] == 'B' && "BY"@[1] == 'Y');
    assert("ASC"@.len() == 3 && "ASC"@[0] == 'A' && "ASC"@[1] == 'S');
    assert("DESC"@.len() == 4 && "DESC"@[0] == 'D' && "DESC"@[1] == 'E');
    assert("FROM"@.len() == 4 && "FROM"@[0] == 'F' && "FROM"@[1] == 'R');
    assert("AND"@.len() == 3 && "AND"@[0] == 'A' && "AND"@[1] == 'N');
    assert("OR"@.len() == 2 && "OR"@[0] == 'O' && "OR"@[1] == 'R');
    assert("NOT"@.len() == 3 && "NOT"@[0] == 'N' && "NOT"@[1] == 'O');
    assert("TRUE"@.len() == 4 && "TRUE"@[0] == 'T' && "TRUE"@[1] == 'R');
    assert("FALSE"@.len() == 5 && "FALSE"@[0] == 'F' && "FALSE"@[1] == 'A');
    assert("PRIMARY"@.len() == 7 && "PRIMARY"@[0] == 'P' && "PRIMARY"@[1] == 'R');
    assert("KEY"@.len() == 3 && "KEY"@[0] == 'K' && "KEY"@[1] == 'E');
    assert("CHECK"@.len() == 5 && "CHECK"@[0] == 'C' && "CHECK"@[1] == 'H');
    assert("INT"@.len() == 3 && "INT"@[0] == 'I' && "INT"@[1] == 'N');
    assert("BOOL"@.len() == 4 && "BOOL"@[0] == 'B' && "BOOL"@[1] == 'O');
    assert("VARCHAR"@.len() == 7 && "VARCHAR"@[0] == 'V' && "VARCHAR"@[1] == 'A');
    assert("NULL"@.len() == 4 && "NULL"@[0] == 'N' && "NULL"@[1] == 'U');
    let word = keyword_source(k);
    assert(uppercase(word) =~= word);
}

/// Whether a character begins no token and is no white space, so that
/// the tokenizer hands it on as an invalid token.
pub open spec fn is_stray(c: char) -> bool {
    &&& !is_space(c)
    &&& !is_digit(c)
    &&& !starts_word(c)
    &&& c != '('
    &&& c != ')'
    &&& c != ','
    &&& c != ';'
    &&& c != '+'
    &&& c != '-'
    &&& c != '*'
    &&& c != '/'
    &&& c != '='
    &&& c != '!'
    &&& c != '>'
    &&& c != '<'
    &&& c != '"'
    &&& c != '\''
}

/// The quote to put a string between: a double quote if the string holds a
/// single quote, and else a single quote.
pub open spec fn quote_for(s: Seq<char>) -> char {
    if s.contains('\'') {
        '"'
    } else {
        '\''
    }
}

/// Whether a token can be written as source text:
/// - a string does not hold both kinds of quote;
/// - an identifier is a word, and no keyword in any case;
/// - an invalid token holds a character that begins no token;
/// - the end-of-input token is not written.
pub open spec fn is_writable(t: SpecToken) -> bool {
    match t {
        SpecToken::String(s) => !s.contains(quote_for(s)),
        SpecToken::Identifier(w) => is_word(w) && keyword_named(uppercase(w)) is None,
        SpecToken::Invalid(c) => is_stray(c),
        SpecToken::Eof => false,
        _ => true,
    }
}

/// A token as source text.
pub open spec fn token_source(t: SpecToken) -> Seq<char> {
    match t {
        SpecToken::LeftParentheses => seq!['('],
        SpecToken::RightParentheses => seq![')'],
        SpecToken::Comma => seq![','],
        SpecToken::Semicolon => seq![';'],
        SpecToken::Plus => seq!['+'],
        SpecToken::Minus => seq!['-'],
        SpecToken::Star => seq!['*'],
        SpecToken::Divide => seq!['/'],
        SpecToken::Equal => seq!['='],
        SpecToken::NotEqual => seq!['!', '='],
        SpecToken::GreaterThan => seq!['>'],
        SpecToken::GreaterThanOrEqual => seq!['>', '='],
        SpecToken::LessThan => seq!['<'],
        SpecToken::LessThanOrEqual => seq!['<', '='],
        SpecToken::Number(n) => decimal_text(n as nat),
        SpecToken::String(s) => seq![quote_for(s)] + (s + seq![quote_for(s)]),
        SpecToken::Identifier(w) => w,
        SpecToken::Keyword(k) => keyword_source(k),
        SpecToken::Invalid(c) => seq![c],
        SpecToken::Eof => Seq::empty(),
    }
}

/// A number in decimal, before a space, is read as the number.
proof fn lemma_number_is_read(n: u64, rest: Seq<char>)
    ensures
        first_lexeme(decimal_text(n as nat) + (seq![' '] + rest)) == lexeme(
            SpecToken::Number(n),
            decimal_text(n as nat).len(),
        ),
{
    let text = decimal_text(n as nat);
    let tail = seq![' '] + rest;
    let s = text + tail;
    lemma_decimal_text_reads_back(n as nat);
    assert(s[0] == text[0]);
    let more = text.skip(1);
    assert(s.skip(1) =~= more + tail);
    assert(run_len(s.skip(1), Run::Digits) == more.len()) by {
        assert forall|i: int| 0 <= i < more.len() implies Run::Digits.accepts(
            #[trigger] more[i],
        ) by {
            assert(more[i] == text[i + 1]);
        }
        lemma_run_ends(Run::Digits, more, ' ', rest);
    }
    assert(s.take(text.len() as int) =~= text);
}

/// A string between quotes that it does not hold is read as the string.
proof fn lemma_string_is_read(content: Seq<char>, rest: Seq<char>)
    requires
        !content.contains(quote_for(content)),
    ensures
        first_lexeme(token_source(SpecToken::String(content)) + (seq![' '] + rest)) == lexeme(
            SpecToken::String(content),
            content.len() + 2,
        ),
{
    let quote = quote_for(content);
    let text = seq![quote] + (content + seq![quote]);
    let tail = seq![' '] + rest;
    let s = text + tail;
    assert(s[0] == quote);
    let body = s.skip(1);
    assert(body =~= content + (seq![quote] + tail));
    assert(run_len(body, Run::Until(quote)) == content.len()) by {
        assert forall|i: int| 0 <= i < content.len() implies Run::Until(quote).accepts(
            #[trigger] content[i],
        ) by {
            assert(content.contains(content[i]));
        }
        lemma_run_ends(Run::Until(quote), content, quote, tail);
    }
    assert(body.take(content.len() as int) =~= content);
}

/// A word before a space is read as the keyword it spells, or else as an
/// identifier.
proof fn lemma_word_is_read(word: Seq<char>, rest: Seq<char>)
    requires
        is_word(word),
    ensures
        first_lexeme(word + (seq![' '] + rest)) == lexeme(word_token(word), word.len()),
{
    let tail = seq![' '] + rest;
    let s = word + tail;
    assert(s[0] == word[0]);
    let more = word.skip(1);
    assert(s.skip(1) =~= more + tail);
    assert(run_len(s.skip(1), Run::Word) == more.len()) by {
        assert forall|i: int| 0 <= i < more.len() implies Run::Word.accepts(#[trigger] more[i]) by {
            assert(more[i] == word[i + 1]);
        }
        lemma_run_ends(Run::Word, more, ' ', rest);
    }
    assert(s.take(word.len() as int) =~= word);
}

/// A token written as source text, before a space, is read as the token.
pub proof fn lemma_token_is_read(t: SpecToken, rest: Seq<char>)
    requires
        is_writable(t),
    ensures
        token_source(t).len() >= 1,
        first_lexeme(token_source(t) + (seq![' '] + rest)) == lexeme(t, token_source(t).len()),
{
    let text = token_source(t);
    let s = text + (seq![' '] + rest);
    match t {
        SpecToken::Number(n) => {
            lemma_decimal_text_reads_back(n as nat);
            lemma_number_is_read(n, rest);
        },
        SpecToken::String(content) => {
            lemma_string_is_read(content, rest);
        },
        SpecToken::Identifier(w) => {
            lemma_word_is_read(w, rest);
        },
        SpecToken::Keyword(k) => {
            lemma_keyword_source_is_read(k);
            lemma_word_is_read(keyword_source(k), rest);
        },
        _ => {
            assert(s[0] == text[0]);
            assert(s[1] == if text.len() == 1 {
                ' '
            } else {
                text[1]
            });
        },
    }
}

/// Whether each of `tokens` can be written as source text.
pub open spec fn are_writable(tokens: Seq<SpecToken>) -> bool {
    forall|i: int| 0 <= i < tokens.len() ==> is_writable(#[trigger] tokens[i])
}

/// Tokens as source text, with a space after each.
pub open spec fn source(tokens: Seq<SpecToken>) -> Seq<char>
    decreases tokens.len(),
{
    if tokens.len() == 0 {
        Seq::empty()
    } else {
        token_source(tokens[0]) + (seq![' '] + source(tokens.skip(1)))
    }
}

/// Tokenizing what tokens are written as gives the tokens, and the
/// end-of-input token after them.
pub proof fn lemma_source_is_read(tokens: Seq<SpecToken>)
    requires
        are_writable(tokens),
    ensures
        lex(source(tokens)) == Ok::<Seq<SpecToken>, Seq<char>>(tokens.push(SpecToken::Eof)),
    decreases tokens.len(),
{
    if tokens.len() == 0 {
        assert(tokens.push(SpecToken::Eof) =~= seq![SpecToken::Eof]);
    } else {
        let t = tokens[0];
        let others = tokens.skip(1);
        let text = token_source(t);
        let tail = seq![' '] + source(others);
        let s = text + tail;
        lemma_token_is_read(t, source(others));
        assert(rest_after(s, text.len()) =~= tail);
        lemma_lex_skips_space(' ', source(others));
        assert(are_writable(others)) by {
            assert forall|i: int| 0 <= i < others.len() implies is_writable(
                #[trigger] others[i],
            ) by {
                assert(others[i] == tokens[i + 1]);
            }
        }
        lemma_source_is_read(others);
        assert(seq![t] + others.push(SpecToken::Eof) =~= tokens.push(SpecToken::Eof));
    }
}

/// Every character of a run is one that the run accepts.
pub proof fn lemma_run_is_accepted(s: Seq<char>, run: Run)
    ensures
        forall|i: int| 0 <= i < run_len(s, run) ==> run.accepts(#[trigger] s[i]),
    decreases s.len(),
{
    if s.len() > 0 && run.accepts(s[0]) {
        let t = s.skip(1);
        lemma_run_is_accepted(t, run);
        lemma_run_len_bound(s, run);
        assert forall|i: int| 0 <= i < run_len(s, run) implies run.accepts(#[trigger] s[i]) by {
            if i > 0 {
                assert(s[i] == t[i - 1]);
            }
        }
    }
}

/// The token of a lexeme can be written as source text, and a lexeme takes
/// up at least one character, and no more than there are.
pub proof fn lemma_lexeme_is_writable(s: Seq<char>)
    requires
        s.len() > 0,
    ensures
        first_lexeme(s) matches Ok(first) ==> {
            &&& 1 <= first.length <= s.len()
            &&& first.token matches Some(t) ==> is_writable(t)
        },
{
    let c = s[0];
    let tail = s.skip(1);
    if c == '"' || c == '\'' {
        let n = run_len(tail, Run::Until(c));
        lemma_run_len_bound(tail, Run::Until(c));
        lemma_run_is_accepted(tail, Run::Until(c));
        if n < tail.len() {
            let content = tail.take(n as int);
            assert(!content.contains(c)) by {
                if content.contains(c) {
                    let i = choose|i: int| 0 <= i < content.len() && content[i] == c;
                    assert(content[i] == tail[i]);
                }
            }
        }
    } else if starts_word(c) && !is_space(c) {
        let n = 1 + run_len(tail, Run::Word);
        lemma_run_len_bound(tail, Run::Word);
        lemma_run_is_accepted(tail, Run::Word);
        let word = s.take(n as int);
        assert(is_word(word)) by {
            assert forall|i: int| 0 <= i < word.len() implies continues_word(#[trigger] word[i]) by {
                if i > 0 {
                    assert(word[i] == tail[i - 1]);
                }
            }
        }
    } else if is_digit(c) {
        lemma_run_len_bound(tail, Run::Digits);
    }
}

/// The tokens of a text, but for the end-of-input token that closes them,
/// can be written as source text.
pub proof fn lemma_lex_yields_writable(s: Seq<char>)
    ensures
        lex(s) matches Ok(tokens) ==> tokens.len() >= 1 && are_writable(tokens.drop_last()),
    decreases s.len(),
{
    if let Ok(tokens) = lex(s) {
        if s.len() == 0 {
            assert(tokens.drop_last() =~= Seq::<SpecToken>::empty());
        } else {
            let first = first_lexeme(s)->Ok_0;
            let rest = lex(rest_after(s, first.length))->Ok_0;
            lemma_lexeme_is_writable(s);
            lemma_lex_yields_writable(rest_after(s, first.length));
            if let Some(t) = first.token {
                assert(tokens.drop_last() =~= seq![t] + rest.drop_last());
                assert forall|i: int| 0 <= i < tokens.drop_last().len() implies is_writable(
                    #[trigger] tokens.drop_last()[i],
                ) by {
                    if i > 0 {
                        assert(tokens.drop_last()[i] == rest.drop_last()[i - 1]);
                    }
                }
            }
        }
    }
}

/// Writing out the tokens of a text, and tokenizing what was written,
/// gives the same tokens: the tokens of a text hold all that the tokenizer
/// makes of it.
pub proof fn lemma_lex_is_stable(s: Seq<char>)
    ensures
        lex(s) matches Ok(tokens) ==> lex(source(tokens.drop_last())) == lex(s),
{
    if let Ok(tokens) = lex(s) {
        lemma_lex_yields_writable(s);
        lemma_lex_ends_with_eof(s);
        lemma_source_is_read(tokens.drop_last());
        assert(tokens.drop_last().push(SpecToken::Eof) =~= tokens);
    }
}

} // verus!

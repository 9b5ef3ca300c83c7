//! The tokenizer: from characters to tokens, in one pass from left to right.

use crate::message::{unterminated_string_message, unterminated_string_text};
use crate::remaining::rest_after;
use crate::token::{tokens_view, Keyword, SpecToken, Token};
use vstd::prelude::*;
use vstd::string::*;

verus! {

/// The characters that separate tokens and are otherwise ignored.
pub open spec fn is_space(c: char) -> bool {
    c == ' ' || c == '\t' || c == '\n'
}

/// The decimal digits.
pub open spec fn is_digit(c: char) -> bool {
    '0' <= c && c <= '9'
}

/// The letters of the ASCII alphabet, in either case.
pub open spec fn is_letter(c: char) -> bool {
    ('a' <= c && c <= 'z') || ('A' <= c && c <= 'Z')
}

/// The characters that an identifier or keyword may begin with.
pub open spec fn starts_word(c: char) -> bool {
    is_letter(c) || c == '_'
}

/// The characters that an identifier or keyword may go on with.
pub open spec fn continues_word(c: char) -> bool {
    is_letter(c) || is_digit(c) || c == '_'
}

/// The kinds of character runs that make up the longer tokens.
pub enum Run {
    /// Decimal digits.
    Digits,
    /// Letters, digits and underscores.
    Word,
    /// Anything but the given quote.
    Until(char),
}

impl Run {
    /// Whether `c` may stand in a run of this kind.
    pub open spec fn accepts(self, c: char) -> bool {
        match self {
            Run::Digits => is_digit(c),
            Run::Word => continues_word(c),
            Run::Until(quote) => c != quote,
        }
    }
}

/// The length of the longest run of the given kind that `s` begins with.
pub open spec fn run_len(s: Seq<char>, run: Run) -> nat
    decreases s.len(),
{
    if s.len() > 0 && run.accepts(s[0]) {
        1 + run_len(s.skip(1), run)
    } else {
        0
    }
}

/// A run is no longer than the text it stands in.
pub proof fn lemma_run_len_bound(s: Seq<char>, run: Run)
    ensures
        run_len(s, run) <= s.len(),
    decreases s.len(),
{
    if s.len() > 0 && run.accepts(s[0]) {
        lemma_run_len_bound(s.skip(1), run);
    }
}

/// A prefix of accepted characters that cannot be extended is the run.
pub proof fn lemma_run_len_is(s: Seq<char>, run: Run, n: nat)
    requires
        n <= s.len(),
        forall|i: int| 0 <= i < n ==> run.accepts(#[trigger] s[i]),
        n == s.len() || !run.accepts(s[n as int]),
    ensures
        run_len(s, run) == n,
    decreases n,
{
    if n > 0 {
        let t = s.skip(1);
        assert forall|i: int| 0 <= i < n - 1 implies run.accepts(#[trigger] t[i]) by {
            assert(t[i] == s[i + 1]);
        }
        lemma_run_len_is(t, run, (n - 1) as nat);
    }
}

/// A prefix of accepted characters is part of the run.
pub proof fn lemma_run_len_at_least(s: Seq<char>, run: Run, n: nat)
    requires
        n <= s.len(),
        forall|i: int| 0 <= i < n ==> run.accepts(#[trigger] s[i]),
    ensures
        n <= run_len(s, run),
    decreases n,
{
    if n > 0 {
        let t = s.skip(1);
        assert forall|i: int| 0 <= i < n - 1 implies run.accepts(#[trigger] t[i]) by {
            assert(t[i] == s[i + 1]);
        }
        lemma_run_len_at_least(t, run, (n - 1) as nat);
    }
}

/// What a decimal digit counts for.
pub open spec fn digit_value(c: char) -> nat {
    (c as nat - '0' as nat) as nat
}

/// The number that a sequence of decimal digits spells, most significant
/// digit first.
pub open spec fn decimal_value(digits: Seq<char>) -> nat
    decreases digits.len(),
{
    if digits.len() == 0 {
        0
    } else {
        decimal_value(digits.drop_last()) * 10 + digit_value(digits.last())
    }
}

/// More digits never spell a smaller number.
pub proof fn lemma_decimal_value_grows(digits: Seq<char>, n: nat)
    requires
        n <= digits.len(),
    ensures
        decimal_value(digits.take(n as int)) <= decimal_value(digits),
    decreases digits.len(),
{
    if n == digits.len() {
        assert(digits.take(n as int) =~= digits);
    } else {
        let shorter = digits.drop_last();
        lemma_decimal_value_grows(shorter, n);
        assert(shorter.take(n as int) =~= digits.take(n as int));
    }
}

/// The upper-case form of a lower-case ASCII letter; any other character
/// unchanged.
pub open spec fn to_upper(c: char) -> char {
    if 'a' <= c && c <= 'z' {
        ((c as u8) - 32) as char
    } else {
        c
    }
}

/// A text with each of its ASCII letters in upper case.
pub open spec fn uppercase(s: Seq<char>) -> Seq<char> {
    s.map_values(|c: char| to_upper(c))
}

/// The keyword that `s` spells in upper case, if it spells one.
pub open spec fn keyword_named(s: Seq<char>) -> Option<Keyword> {
    if s == "SELECT"@ {
        Some(Keyword::Select)
    } else if s == "CREATE"@ {
        Some(Keyword::Create)
    } else if s == "TABLE"@ {
        Some(Keyword::Table)
    } else if s == "WHERE"@ {
        Some(Keyword::Where)
    } else if s == "ORDER"@ {
        Some(Keyword::Order)
    } else if s == "BY"@ {
        Some(Keyword::By)
    } else if s == "ASC"@ {
        Some(Keyword::Asc)
    } else if s == "DESC"@ {
        Some(Keyword::Desc)
    } else if s == "FROM"@ {
        Some(Keyword::From)
    } else if s == "AND"@ {
        Some(Keyword::And)
    } else if s == "OR"@ {
        Some(Keyword::Or)
    } else if s == "NOT"@ {
        Some(Keyword::Not)
    } else if s == "TRUE"@ {
        Some(Keyword::True)
    } else if s == "FALSE"@ {
        Some(Keyword::False)
    } else if s == "PRIMARY"@ {
        Some(Keyword::Primary)
    } else if s == "KEY"@ {
        Some(Keyword::Key)
    } else if s == "CHECK"@ {
        Some(Keyword::Check)
    } else if s == "INT"@ {
        Some(Keyword::Int)
    } else if s == "BOOL"@ {
        Some(Keyword::Bool)
    } else if s == "VARCHAR"@ {
        Some(Keyword::Varchar)
    } else if s == "NULL"@ {
        Some(Keyword::Null)
    } else {
        None
    }
}

/// The token that a word stands for: a keyword where the word spells one,
/// whatever its case, and else an identifier that keeps the word as written.
pub open spec fn word_token(word: Seq<char>) -> SpecToken {
    match keyword_named(uppercase(word)) {
        Some(keyword) => SpecToken::Keyword(keyword),
        None => SpecToken::Identifier(word),
    }
}

/// The first lexical unit of a text: how many characters it takes up and
/// the token it yields, if any (white space yields none).
pub struct Lexeme {
    pub token: Option<SpecToken>,
    pub length: nat,
}

/// A lexeme that yields `token`.
pub open spec fn lexeme(token: SpecToken, length: nat) -> Result<Lexeme, Seq<char>> {
    Ok(Lexeme { token: Some(token), length })
}

/// The first lexeme of a text that is not empty, or the lexical error that
/// the text begins with.
pub open spec fn first_lexeme(s: Seq<char>) -> Result<Lexeme, Seq<char>>
    recommends
        s.len() > 0,
{
    let c = s[0];
    let equal_follows = s.len() > 1 && s[1] == '=';
    if is_space(c) {
        Ok(Lexeme { token: None, length: 1 })
    } else if c == '(' {
        lexeme(SpecToken::LeftParentheses, 1)
    } else if c == ')' {
        lexeme(SpecToken::RightParentheses, 1)
    } else if c == ',' {
        lexeme(SpecToken::Comma, 1)
    } else if c == ';' {
        lexeme(SpecToken::Semicolon, 1)
    } else if c == '+' {
        lexeme(SpecToken::Plus, 1)
    } else if c == '-' {
        lexeme(SpecToken::Minus, 1)
    } else if c == '*' {
        lexeme(SpecToken::Star, 1)
    } else if c == '/' {
        lexeme(SpecToken::Divide, 1)
    } else if c == '=' {
        lexeme(SpecToken::Equal, if equal_follows { 2 } else { 1 })
    } else if c == '!' {
        if equal_follows {
            lexeme(SpecToken::NotEqual, 2)
        } else {
            Err("Unexpected character '!'"@)
        }
    } else if c == '>' {
        if equal_follows {
            lexeme(SpecToken::GreaterThanOrEqual, 2)
        } else {
            lexeme(SpecToken::GreaterThan, 1)
        }
    } else if c == '<' {
        if equal_follows {
            lexeme(SpecToken::LessThanOrEqual, 2)
        } else {
            lexeme(SpecToken::LessThan, 1)
        }
    } else if c == '"' || c == '\'' {
        let body = s.skip(1);
        let n = run_len(body, Run::Until(c));
        if n < body.len() {
            lexeme(SpecToken::String(body.take(n as int)), n + 2)
        } else {
            Err(unterminated_string_text(c, body))
        }
    } else if is_digit(c) {
        let n = 1 + run_len(s.skip(1), Run::Digits);
        let value = decimal_value(s.take(n as int));
        if value <= u64::MAX {
            lexeme(SpecToken::Number(value as u64), n)
        } else {
            Err("Invalid number"@)
        }
    } else if starts_word(c) {
        let n = 1 + run_len(s.skip(1), Run::Word);
        lexeme(word_token(s.take(n as int)), n)
    } else {
        lexeme(SpecToken::Invalid(c), 1)
    }
}

/// The tokens of a text, closed by the end-of-input token, or the first
/// lexical error in it.
pub open spec fn lex(s: Seq<char>) -> Result<Seq<SpecToken>, Seq<char>>
    decreases s.len(),
{
    if s.len() == 0 {
        Ok(seq![SpecToken::Eof])
    } else {
        match first_lexeme(s) {
            Err(message) => Err(message),
            Ok(first) => match lex(rest_after(s, first.length)) {
                Err(message) => Err(message),
                Ok(rest) => Ok(
                    match first.token {
                        Some(token) => seq![token] + rest,
                        None => rest,
                    },
                ),
            },
        }
    }
}

/// What a tokenizer result stands for.
pub open spec fn lexed_view(r: Result<Vec<Token>, String>) -> Result<Seq<SpecToken>, Seq<char>> {
    match r {
        Ok(tokens) => Ok(tokens_view(tokens@)),
        Err(message) => Err(message@),
    }
}

/// The outcome `r` of tokenizing the rest of a text, seen from the start of
/// the text, where `before` are the tokens found so far.
pub open spec fn after_tokens(
    before: Seq<SpecToken>,
    r: Result<Seq<SpecToken>, Seq<char>>,
) -> Result<Seq<SpecToken>, Seq<char>> {
    match r {
        Ok(rest) => Ok(before + rest),
        Err(message) => Err(message),
    }
}

/// A text that tokenizes ends in the end-of-input token, and holds it
/// nowhere else.
pub proof fn lemma_lex_ends_with_eof(s: Seq<char>)
    ensures
        lex(s) matches Ok(tokens) ==> {
            &&& tokens.len() > 0
            &&& tokens.last() == SpecToken::Eof
            &&& forall|i: int| 0 <= i < tokens.len() - 1 ==> tokens[i] != SpecToken::Eof
        },
    decreases s.len(),
{
    if s.len() > 0 {
        if let Ok(first) = first_lexeme(s) {
            lemma_lex_ends_with_eof(rest_after(s, first.length));
        }
    }
}

/// White space in front of a text yields no token and changes none.
pub proof fn lemma_lex_skips_space(c: char, s: Seq<char>)
    requires
        is_space(c),
    ensures
        lex(seq![c] + s) == lex(s),
{
    assert(rest_after(seq![c] + s, 1) =~= s);
}

/// Two words that differ in the case of their letters at most are the same
/// keyword, or both identifiers.
pub proof fn lemma_keywords_ignore_case(a: Seq<char>, b: Seq<char>)
    requires
        uppercase(a) == uppercase(b),
    ensures
        word_token(a) is Keyword <==> word_token(b) is Keyword,
        word_token(a) is Keyword ==> word_token(a) == word_token(b),
{
}

fn char_is_space(c: char) -> (b: bool)
    ensures
        b == is_space(c),
{
    c == ' ' || c == '\t' || c == '\n'
}

fn char_is_digit(c: char) -> (b: bool)
    ensures
        b == is_digit(c),
{
    '0' <= c && c <= '9'
}

fn char_starts_word(c: char) -> (b: bool)
    ensures
        b == starts_word(c),
{
    ('a' <= c && c <= 'z') || ('A' <= c && c <= 'Z') || c == '_'
}

fn char_continues_word(c: char) -> (b: bool)
    ensures
        b == continues_word(c),
{
    char_starts_word(c) || char_is_digit(c)
}

fn char_to_upper(c: char) -> (u: char)
    ensures
        u == to_upper(c),
{
    if 'a' <= c && c <= 'z' {
        ((c as u8) - 32) as char
    } else {
        c
    }
}

/// The characters of a text, in order.
fn collect_chars(input: &str) -> (chars: Vec<char>)
    ensures
        chars@ == input@,
{
    let mut chars: Vec<char> = Vec::new();
    for c in it: input.chars()
        invariant
            chars@ == it.seq().take(it.index() as int),
    {
        chars.push(c);
    }
    chars
}

/// Whether `word` is `literal`, character by character.
fn spells(word: &Vec<char>, literal: &str) -> (b: bool)
    ensures
        b == (word@ == literal@),
{
    let n = literal.unicode_len();
    if word.len() != n {
        return false;
    }
    let mut i: usize = 0;
    while i < n
        invariant
            i <= n,
            n == word@.len(),
            n == literal@.len(),
            forall|k: int| 0 <= k < i ==> word@[k] == literal@[k],
        decreases n - i,
    {
        if word[i] != literal.get_char(i) {
            return false;
        }
        i += 1;
    }
    proof {
        assert(word@ =~= literal@);
    }
    true
}

/// The keyword that `word` spells in upper case, if it spells one.
fn keyword_of(word: &Vec<char>) -> (k: Option<Keyword>)
    ensures
        k == keyword_named(word@),
{
    if spells(word, "SELECT") {
        Some(Keyword::Select)
    } else if spells(word, "CREATE") {
        Some(Keyword::Create)
    } else if spells(word, "TABLE") {
        Some(Keyword::Table)
    } else if spells(word, "WHERE") {
        Some(Keyword::Where)
    } else if spells(word, "ORDER") {
        Some(Keyword::Order)
    } else if spells(word, "BY") {
        Some(Keyword::By)
    } else if spells(word, "ASC") {
        Some(Keyword::Asc)
    } else if spells(word, "DESC") {
        Some(Keyword::Desc)
    } else if spells(word, "FROM") {
        Some(Keyword::From)
    } else if spells(word, "AND") {
        Some(Keyword::And)
    } else if spells(word, "OR") {
        Some(Keyword::Or)
    } else if spells(word, "NOT") {
        Some(Keyword::Not)
    } else if spells(word, "TRUE") {
        Some(Keyword::True)
    } else if spells(word, "FALSE") {
        Some(Keyword::False)
    } else if spells(word, "PRIMARY") {
        Some(Keyword::Primary)
    } else if spells(word, "KEY") {
        Some(Keyword::Key)
    } else if spells(word, "CHECK") {
        Some(Keyword::Check)
    } else if spells(word, "INT") {
        Some(Keyword::Int)
    } else if spells(word, "BOOL") {
        Some(Keyword::Bool)
    } else if spells(word, "VARCHAR") {
        Some(Keyword::Varchar)
    } else if spells(word, "NULL") {
        Some(Keyword::Null)
    } else {
        None
    }
}

/// Looks a word up among the keywords. The word has to be in upper case
/// already: `"SELECT"` is found, `"select"` is not.
pub fn match_keyword(s: &str) -> (k: Option<Keyword>)
    ensures
        k == keyword_named(s@),
{
    let word = collect_chars(s);
    keyword_of(&word)
}

/// Reads the body of a quoted string, which begins at `start`, up to the
/// closing quote or the end of the text. Returns the body and where it ends.
fn scan_string(chars: &Vec<char>, start: usize, quote: char) -> (res: (String, usize))
    requires
        start <= chars.len(),
    ensures
        start <= res.1 <= chars.len(),
        res.1 - start == run_len(chars@.skip(start as int), Run::Until(quote)),
        res.0@ == chars@.subrange(start as int, res.1 as int),
{
    let mut body = String::new();
    let mut end = start;
    while end < chars.len() && chars[end] != quote
        invariant
            start <= end <= chars.len(),
            body@ == chars@.subrange(start as int, end as int),
            forall|k: int| start <= k < end ==> chars@[k] != quote,
        decreases chars.len() - end,
    {
        body.push(chars[end]);
        end += 1;
        proof {
            assert(chars@.subrange(start as int, end as int) =~= chars@.subrange(
                start as int,
                end - 1,
            ).push(chars@[end - 1]));
        }
    }
    proof {
        let s = chars@.skip(start as int);
        assert forall|k: int| 0 <= k < end - start implies Run::Until(quote).accepts(
            #[trigger] s[k],
        ) by {
            assert(s[k] == chars@[start + k]);
        }
        lemma_run_len_is(s, Run::Until(quote), (end - start) as nat);
    }
    (body, end)
}

/// Reads the digits that begin at `start`. Returns their value and where
/// they end, or nothing if the value does not fit in 64 bits.
fn scan_number(chars: &Vec<char>, start: usize) -> (res: Option<(u64, usize)>)
    requires
        start < chars.len(),
        is_digit(chars@[start as int]),
    ensures
        ({
            let n = 1 + run_len(chars@.skip(start + 1), Run::Digits);
            let value = decimal_value(chars@.skip(start as int).take(n as int));
            match res {
                Some((number, end)) => end == start + n && end <= chars.len() && number == value,
                None => value > u64::MAX,
            }
        }),
{
    let ghost tail = chars@.skip(start + 1);
    let ghost n = 1 + run_len(tail, Run::Digits);
    let ghost digits = chars@.skip(start as int).take(n as int);
    let mut value: u64 = 0;
    let mut end = start;
    while end < chars.len() && char_is_digit(chars[end])
        invariant
            start <= end <= chars.len(),
            tail == chars@.skip(start + 1),
            n == 1 + run_len(tail, Run::Digits),
            digits == chars@.skip(start as int).take(n as int),
            value == decimal_value(chars@.subrange(start as int, end as int)),
            forall|k: int| start <= k < end ==> is_digit(chars@[k]),
        decreases chars.len() - end,
    {
        let d: u64 = (chars[end] as u64) - 48;
        proof {
            let longer = chars@.subrange(start as int, end + 1);
            assert(longer.drop_last() =~= chars@.subrange(start as int, end as int));
            assert(decimal_value(longer) == value * 10 + d);
        }
        if value > (u64::MAX - d) / 10 {
            proof {
                let longer = chars@.subrange(start as int, end + 1);
                assert forall|k: int| 0 <= k < end - start implies Run::Digits.accepts(
                    #[trigger] tail[k],
                ) by {
                    assert(tail[k] == chars@[start + 1 + k]);
                }
                lemma_run_len_at_least(tail, Run::Digits, (end - start) as nat);
                lemma_run_len_bound(tail, Run::Digits);
                assert(digits.take(end + 1 - start) =~= longer);
                lemma_decimal_value_grows(digits, (end + 1 - start) as nat);
            }
            return None;
        }
        value = value * 10 + d;
        end += 1;
    }
    proof {
        assert forall|k: int| 0 <= k < end - start - 1 implies Run::Digits.accepts(
            #[trigger] tail[k],
        ) by {
            assert(tail[k] == chars@[start + 1 + k]);
        }
        lemma_run_len_is(tail, Run::Digits, (end - start - 1) as nat);
        assert(digits =~= chars@.subrange(start as int, end as int));
    }
    Some((value, end))
}

/// Reads the word that begins at `start`. Returns the word as written, the
/// word in upper case, and where it ends.
fn scan_word(chars: &Vec<char>, start: usize) -> (res: (String, Vec<char>, usize))
    requires
        start < chars.len(),
        starts_word(chars@[start as int]),
    ensures
        res.2 == start + 1 + run_len(chars@.skip(start + 1), Run::Word),
        res.2 <= chars.len(),
        res.0@ == chars@.subrange(start as int, res.2 as int),
        res.1@ == uppercase(res.0@),
{
    let ghost tail = chars@.skip(start + 1);
    let mut word = String::new();
    let mut upper: Vec<char> = Vec::new();
    let mut end = start;
    while end < chars.len() && char_continues_word(chars[end])
        invariant
            start <= end <= chars.len(),
            word@ == chars@.subrange(start as int, end as int),
            upper@ == uppercase(word@),
            forall|k: int| start <= k < end ==> continues_word(chars@[k]),
        decreases chars.len() - end,
    {
        let c = chars[end];
        proof {
            assert(chars@.subrange(start as int, end + 1) =~= word@.push(c));
            assert(uppercase(word@.push(c)) =~= uppercase(word@).push(to_upper(c)));
        }
        word.push(c);
        upper.push(char_to_upper(c));
        end += 1;
    }
    proof {
        assert forall|k: int| 0 <= k < end - start - 1 implies Run::Word.accepts(
            #[trigger] tail[k],
        ) by {
            assert(tail[k] == chars@[start + 1 + k]);
        }
        lemma_run_len_is(tail, Run::Word, (end - start - 1) as nat);
    }
    (word, upper, end)
}

/// What an optional token stands for.
pub open spec fn optional_token_view(token: Option<Token>) -> Option<SpecToken> {
    match token {
        Some(t) => Some(t@),
        None => None,
    }
}

/// Reads the lexeme that begins at `start`. Returns its token, if it yields
/// one, and where it ends.
fn scan_lexeme(chars: &Vec<char>, start: usize) -> (res: Result<(Option<Token>, usize), String>)
    requires
        start < chars.len(),
    ensures
        match first_lexeme(chars@.skip(start as int)) {
            Ok(first) => res matches Ok((token, next)) && optional_token_view(token) == first.token
                && next == start + first.length && next <= chars.len(),
            Err(message) => res matches Err(e) && e@ == message,
        },
{
    let ghost s = chars@.skip(start as int);
    let c = chars[start];
    let equal_follows = start + 1 < chars.len() && chars[start + 1] == '=';
    proof {
        assert(s[0] == c);
        assert(equal_follows == (s.len() > 1 && s[1] == '='));
        assert(s.skip(1) =~= chars@.skip(start + 1));
    }
    if char_is_space(c) {
        Ok((None, start + 1))
    } else if c == '(' {
        Ok((Some(Token::LeftParentheses), start + 1))
    } else if c == ')' {
        Ok((Some(Token::RightParentheses), start + 1))
    } else if c == ',' {
        Ok((Some(Token::Comma), start + 1))
    } else if c == ';' {
        Ok((Some(Token::Semicolon), start + 1))
    } else if c == '+' {
        Ok((Some(Token::Plus), start + 1))
    } else if c == '-' {
        Ok((Some(Token::Minus), start + 1))
    } else if c == '*' {
        Ok((Some(Token::Star), start + 1))
    } else if c == '/' {
        Ok((Some(Token::Divide), start + 1))
    } else if c == '=' {
        Ok((Some(Token::Equal), if equal_follows { start + 2 } else { start + 1 }))
    } else if c == '!' {
        if equal_follows {
            Ok((Some(Token::NotEqual), start + 2))
        } else {
            Err(String::from_str("Unexpected character '!'"))
        }
    } else if c == '>' {
        if equal_follows {
            Ok((Some(Token::GreaterThanOrEqual), start + 2))
        } else {
            Ok((Some(Token::GreaterThan), start + 1))
        }
    } else if c == '<' {
        if equal_follows {
            Ok((Some(Token::LessThanOrEqual), start + 2))
        } else {
            Ok((Some(Token::LessThan), start + 1))
        }
    } else if c == '"' || c == '\'' {
        let (body, end) = scan_string(chars, start + 1, c);
        proof {
            assert(s.skip(1).take(end - start - 1) =~= chars@.subrange(start + 1, end as int));
        }
        if end < chars.len() {
            Ok((Some(Token::String(body)), end + 1))
        } else {
            proof {
                assert(s.skip(1) =~= chars@.subrange(start + 1, end as int));
            }
            Err(unterminated_string_message(c, body.as_str()))
        }
    } else if char_is_digit(c) {
        match scan_number(chars, start) {
            Some((number, end)) => Ok((Some(Token::Number(number)), end)),
            None => Err(String::from_str("Invalid number")),
        }
    } else if char_starts_word(c) {
        let (word, upper, end) = scan_word(chars, start);
        proof {
            assert(s.take(end - start) =~= chars@.subrange(start as int, end as int));
        }
        match keyword_of(&upper) {
            Some(keyword) => Ok((Some(Token::Keyword(keyword)), end)),
            None => Ok((Some(Token::Identifier(word)), end)),
        }
    } else {
        Ok((Some(Token::Invalid(c)), start + 1))
    }
}

/// Splits a text into tokens. The result ends with [`Token::Eof`]; white
/// space separates tokens and yields none. `=` and `==` are the same token.
/// A character that begins no token becomes [`Token::Invalid`], for the
/// parser to reject. The first lexical error ends the scan: a `!` that no
/// `=` follows, a quoted string that is not closed, or a number that does
/// not fit in 64 bits.
pub fn tokenize(input: &str) -> (res: Result<Vec<Token>, String>)
    ensures
        lexed_view(res) == lex(input@),
        res matches Ok(tokens) ==> tokens@.len() > 0 && tokens@.last()@ == SpecToken::Eof,
{
    let chars = collect_chars(input);
    let mut tokens: Vec<Token> = Vec::new();
    let mut i: usize = 0;
    proof {
        assert(chars@.skip(0) =~= input@);
        if let Ok(all) = lex(input@) {
            assert(tokens_view(tokens@) + all =~= all);
        }
    }
    while i < chars.len()
        invariant
            i <= chars.len(),
            chars@ == input@,
            lex(input@) == after_tokens(tokens_view(tokens@), lex(chars@.skip(i as int))),
        decreases chars.len() - i,
    {
        let ghost s = chars@.skip(i as int);
        let ghost before = tokens_view(tokens@);
        match scan_lexeme(&chars, i) {
            Err(message) => {
                return Err(message);
            },
            Ok((token, next)) => {
                proof {
                    let first = first_lexeme(s)->Ok_0;
                    assert(rest_after(s, first.length) =~= chars@.skip(next as int));
                }
                match token {
                    Some(t) => {
                        proof {
                            assert(tokens_view(tokens@.push(t)) =~= before.push(t@));
                            if let Ok(rest) = lex(chars@.skip(next as int)) {
                                assert(before + (seq![t@] + rest) =~= before.push(t@) + rest);
                            }
                        }
                        tokens.push(t);
                    },
                    None => {},
                }
                i = next;
            },
        }
    }
    proof {
        assert(tokens_view(tokens@.push(Token::Eof)) =~= tokens_view(tokens@) + seq![
            SpecToken::Eof,
        ]);
    }
    tokens.push(Token::Eof);
    Ok(tokens)
}

} // verus!

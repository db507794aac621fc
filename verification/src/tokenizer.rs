//! From text to tokens.
use crate::function_table::FunctionKind;
use crate::function_table::lemma_all_listed;
use crate::number::decimal_value;
use crate::number::is_decimal_literal;
use crate::number::is_digit;
use crate::number::Number;
use crate::text::char_text;
use crate::text::chars_of;
use vstd::prelude::*;
use vstd::string::StringExecFns;
use vstd::string::StrSliceExecFns;

verus! {

/// A lexical token.
#[derive(Debug, PartialEq, Eq)]
pub enum Token {
    Number(Number),
    Identifier(String),
    Function(String),
    Plus,
    Minus,
    Mul,
    Div,
    Pow,
    LParen,
    RParen,
}

/// The mathematical model of a token: names are sequences of characters.
pub enum Lexeme {
    Number(Number),
    Identifier(Seq<char>),
    Function(Seq<char>),
    Plus,
    Minus,
    Mul,
    Div,
    Pow,
    LParen,
    RParen,
}

/// Why a text is not a sequence of tokens.
#[derive(Clone, Copy, Debug, PartialEq, Eq, Structural)]
pub enum TokenizeError {
    /// A character that starts no token.
    UnknownCharacter(char),
    /// A run of digits and points that is no decimal literal.
    InvalidNumber,
}

impl View for Token {
    type V = Lexeme;

    open spec fn view(&self) -> Lexeme {
        match self {
            Token::Number(n) => Lexeme::Number(*n),
            Token::Identifier(name) => Lexeme::Identifier(name@),
            Token::Function(name) => Lexeme::Function(name@),
            Token::Plus => Lexeme::Plus,
            Token::Minus => Lexeme::Minus,
            Token::Mul => Lexeme::Mul,
            Token::Div => Lexeme::Div,
            Token::Pow => Lexeme::Pow,
            Token::LParen => Lexeme::LParen,
            Token::RParen => Lexeme::RParen,
        }
    }
}

/// The models of a sequence of tokens.
pub open spec fn lexemes(tokens: Seq<Token>) -> Seq<Lexeme> {
    Seq::new(tokens.len(), |i: int| tokens[i]@)
}

/// Whether `c` is one of the letters `a` to `z` and `A` to `Z`.
pub open spec fn is_letter(c: char) -> bool {
    ('a' <= c && c <= 'z') || ('A' <= c && c <= 'Z')
}

/// Whether `c` is a digit or a point.
pub open spec fn is_number_char(c: char) -> bool {
    is_digit(c) || c == '.'
}

/// Whether `c` is a blank, a tab, a line feed or a carriage return.
pub open spec fn is_blank(c: char) -> bool {
    c == ' ' || c == '\t' || c == '\n' || c == '\r'
}

/// Where the run of letters that holds position `from` ends.
pub open spec fn letters_end(s: Seq<char>, from: int) -> int
    decreases s.len() - from,
{
    if 0 <= from < s.len() && is_letter(s[from]) {
        letters_end(s, from + 1)
    } else {
        from
    }
}

/// Where the run of digits and points that holds position `from` ends.
pub open spec fn number_end(s: Seq<char>, from: int) -> int
    decreases s.len() - from,
{
    if 0 <= from < s.len() && is_number_char(s[from]) {
        number_end(s, from + 1)
    } else {
        from
    }
}

/// Whether `word` stands in `s` at position `at`.
pub open spec fn starts_with(s: Seq<char>, at: int, word: Seq<char>) -> bool {
    0 <= at && at + word.len() <= s.len() && s.subrange(at, at + word.len()) == word
}

/// The first of `kinds` whose name stands in `s` at `at`.
pub open spec fn first_function_at(s: Seq<char>, at: int, kinds: Seq<FunctionKind>) -> Option<
    FunctionKind,
>
    decreases kinds.len(),
{
    if kinds.len() == 0 {
        None
    } else if starts_with(s, at, kinds[0].name()) {
        Some(kinds[0])
    } else {
        first_function_at(s, at, kinds.skip(1))
    }
}

/// The function with the longest name that stands in `s` at `at`.
pub open spec fn function_at(s: Seq<char>, at: int) -> Option<FunctionKind> {
    first_function_at(s, at, FunctionKind::by_length())
}

/// The identifier that was gathered from `pending` up to `at`, if any.
pub open spec fn gathered(s: Seq<char>, pending: int, at: int) -> Seq<Lexeme> {
    if pending < at {
        seq![Lexeme::Identifier(s.subrange(pending, at))]
    } else {
        seq![]
    }
}

/// The tokens of a run of letters from position `at` on. At each position the
/// longest function name that stands there becomes a function token; a
/// character at which none stands joins the identifier that is gathered since
/// `pending`.
pub open spec fn segments(run: Seq<char>, at: int, pending: int) -> Seq<Lexeme>
    decreases run.len() - at,
{
    if at < 0 || at >= run.len() {
        gathered(run, pending, at)
    } else {
        match function_at(run, at) {
            Some(kind) => {
                let next = at + kind.name().len();
                if at < next <= run.len() {
                    gathered(run, pending, at) + seq![Lexeme::Function(kind.name())] + segments(
                        run,
                        next,
                        next,
                    )
                } else {
                    gathered(run, pending, at)
                }
            },
            None => segments(run, at + 1, pending),
        }
    }
}

/// Whether the tokens end in a number that follows a power sign. Such a
/// number starts an exponent: what stands next to it belongs to the exponent
/// or is the argument of a powered function, and no product sign parts them.
pub open spec fn ends_in_exponent(acc: Seq<Lexeme>) -> bool {
    let n = acc.len() as int;
    n >= 2 && acc[n - 2] is Pow && acc[n - 1] is Number
}

/// Whether a product sign is put before a name or an opening parenthesis:
/// after a number, an identifier or a closing parenthesis, but not after a
/// number that starts an exponent.
pub open spec fn product_before_name(acc: Seq<Lexeme>) -> bool {
    &&& acc.len() > 0
    &&& (acc.last() is Number || acc.last() is Identifier || acc.last() is RParen)
    &&& !ends_in_exponent(acc)
}

/// Whether a product sign is put before a number: after a number or a closing
/// parenthesis, but not after a number that starts an exponent. A number
/// after an identifier is its exponent.
pub open spec fn product_before_number(acc: Seq<Lexeme>) -> bool {
    &&& acc.len() > 0
    &&& (acc.last() is Number || acc.last() is RParen)
    &&& !ends_in_exponent(acc)
}

/// `acc`, with a product sign where `wanted`.
pub open spec fn with_product(acc: Seq<Lexeme>, wanted: bool) -> Seq<Lexeme> {
    if wanted {
        acc.push(Lexeme::Mul)
    } else {
        acc
    }
}

/// The token of a character that is a token by itself, apart from `(`.
pub open spec fn sign(c: char) -> Option<Lexeme> {
    if c == '+' {
        Some(Lexeme::Plus)
    } else if c == '-' {
        Some(Lexeme::Minus)
    } else if c == '*' {
        Some(Lexeme::Mul)
    } else if c == '/' {
        Some(Lexeme::Div)
    } else if c == '^' {
        Some(Lexeme::Pow)
    } else if c == ')' {
        Some(Lexeme::RParen)
    } else {
        None
    }
}

/// The first pass: the tokens of `s` from `at` on, after the tokens `acc`. A
/// run of digits and points becomes a number, a run of letters is split into
/// functions and identifiers, and each other character is a token by itself
/// or a blank. (A run ends after where it starts and inside the text, as the
/// module `progress` proves; the test of `end` says so to the termination
/// check.)
pub open spec fn scan(s: Seq<char>, at: int, acc: Seq<Lexeme>) -> Result<
    Seq<Lexeme>,
    TokenizeError,
>
    decreases s.len() - at,
{
    if at < 0 || at >= s.len() {
        Ok(acc)
    } else {
        let c = s[at];
        if is_number_char(c) {
            let end = number_end(s, at + 1);
            let text = s.subrange(at, end);
            if end <= at || end > s.len() {
                Ok(acc)
            } else if is_decimal_literal(text) {
                let value = Lexeme::Number(Number { bits: decimal_value(text) });
                scan(s, end, with_product(acc, product_before_number(acc)).push(value))
            } else {
                Err(TokenizeError::InvalidNumber)
            }
        } else if is_letter(c) {
            let end = letters_end(s, at + 1);
            if end <= at || end > s.len() {
                Ok(acc)
            } else {
                scan(
                    s,
                    end,
                    with_product(acc, product_before_name(acc)) + segments(s.take(end), at, at),
                )
            }
        } else if c == '(' {
            scan(s, at + 1, with_product(acc, product_before_name(acc)).push(Lexeme::LParen))
        } else if sign(c) is Some {
            scan(s, at + 1, acc.push(sign(c)->Some_0))
        } else if is_blank(c) {
            scan(s, at + 1, acc)
        } else {
            Err(TokenizeError::UnknownCharacter(c))
        }
    }
}

/// Whether an identifier at `i` is followed by a number that no explicit
/// power sign follows.
pub open spec fn implicit_power_at(t: Seq<Lexeme>, i: int) -> bool {
    &&& 0 <= i < t.len()
    &&& t[i] is Identifier
    &&& i + 1 < t.len()
    &&& t[i + 1] is Number
    &&& !(i + 2 < t.len() && t[i + 2] is Pow)
}

/// The second pass over the first `upto` tokens: a power sign is put after
/// each identifier at which `implicit_power_at` holds.
pub open spec fn with_powers(t: Seq<Lexeme>, upto: int) -> Seq<Lexeme>
    decreases upto,
{
    if upto <= 0 {
        seq![]
    } else {
        let before = with_powers(t, upto - 1).push(t[upto - 1]);
        if implicit_power_at(t, upto - 1) {
            before.push(Lexeme::Pow)
        } else {
            before
        }
    }
}

/// The tokens of a text: both passes.
pub open spec fn tokens_of(s: Seq<char>) -> Result<Seq<Lexeme>, TokenizeError> {
    match scan(s, 0, seq![]) {
        Ok(t) => Ok(with_powers(t, t.len() as int)),
        Err(e) => Err(e),
    }
}

impl Token {
    /// A copy of the token.
    pub fn duplicate(&self) -> (r: Token)
        ensures
            r@ == self@,
    {
        match self {
            Token::Number(n) => Token::Number(*n),
            Token::Identifier(name) => Token::Identifier(name.clone()),
            Token::Function(name) => Token::Function(name.clone()),
            Token::Plus => Token::Plus,
            Token::Minus => Token::Minus,
            Token::Mul => Token::Mul,
            Token::Div => Token::Div,
            Token::Pow => Token::Pow,
            Token::LParen => Token::LParen,
            Token::RParen => Token::RParen,
        }
    }
}

/// The message of an unknown character, before the character.
pub open spec fn unknown_character_prefix() -> Seq<char> {
    seq![
        'U',
        'n',
        'k',
        'n',
        'o',
        'w',
        'n',
        ' ',
        'c',
        'h',
        'a',
        'r',
        'a',
        'c',
        't',
        'e',
        'r',
        ':',
        ' ',
    ]
}

/// The message of an invalid number.
pub open spec fn invalid_number_text() -> Seq<char> {
    seq![
        'I',
        'n',
        'v',
        'a',
        'l',
        'i',
        'd',
        ' ',
        'n',
        'u',
        'm',
        'b',
        'e',
        'r',
        ':',
        ' ',
        'i',
        'n',
        'v',
        'a',
        'l',
        'i',
        'd',
        ' ',
        'f',
        'l',
        'o',
        'a',
        't',
        ' ',
        'l',
        'i',
        't',
        'e',
        'r',
        'a',
        'l',
    ]
}

impl TokenizeError {
    /// The message of the error.
    pub open spec fn text(self) -> Seq<char> {
        match self {
            TokenizeError::UnknownCharacter(c) => unknown_character_prefix().push(c),
            TokenizeError::InvalidNumber => invalid_number_text(),
        }
    }

    /// A message for people.
    pub fn to_text(&self) -> (r: String)
        ensures
            r@ == self.text(),
    {
        proof {
            reveal_strlit("Unknown character: ");
            reveal_strlit("Invalid number: invalid float literal");
        }
        match self {
            TokenizeError::UnknownCharacter(c) => {
                let mut out = String::from_str("Unknown character: ");
                assert(out@ =~= unknown_character_prefix());
                let one = char_text(*c);
                out.append(one.as_str());
                assert(out@ =~= self.text());
                out
            },
            TokenizeError::InvalidNumber => {
                let out = String::from_str("Invalid number: invalid float literal");
                assert(out@ =~= invalid_number_text());
                out
            },
        }
    }
}

fn check_letter(c: char) -> (r: bool)
    ensures
        r == is_letter(c),
{
    ('a' <= c && c <= 'z') || ('A' <= c && c <= 'Z')
}

fn check_number_char(c: char) -> (r: bool)
    ensures
        r == is_number_char(c),
{
    ('0' <= c && c <= '9') || c == '.'
}

fn check_blank(c: char) -> (r: bool)
    ensures
        r == is_blank(c),
{
    c == ' ' || c == '\t' || c == '\n' || c == '\r'
}

fn sign_token(c: char) -> (r: Option<Token>)
    ensures
        match sign(c) {
            Some(l) => r is Some && r->Some_0@ == l,
            None => r is None,
        },
{
    if c == '+' {
        Some(Token::Plus)
    } else if c == '-' {
        Some(Token::Minus)
    } else if c == '*' {
        Some(Token::Mul)
    } else if c == '/' {
        Some(Token::Div)
    } else if c == '^' {
        Some(Token::Pow)
    } else if c == ')' {
        Some(Token::RParen)
    } else {
        None
    }
}

fn after_exponent_start(tokens: &Vec<Token>) -> (r: bool)
    ensures
        r == ends_in_exponent(lexemes(tokens@)),
{
    let n = tokens.len();
    if n < 2 {
        return false;
    }
    let power = match &tokens[n - 2] {
        Token::Pow => true,
        _ => false,
    };
    let number = match &tokens[n - 1] {
        Token::Number(_) => true,
        _ => false,
    };
    power && number
}

fn wants_product_before_name(tokens: &Vec<Token>) -> (r: bool)
    ensures
        r == product_before_name(lexemes(tokens@)),
{
    let n = tokens.len();
    if n == 0 {
        return false;
    }
    let operand = match &tokens[n - 1] {
        Token::Number(_) => true,
        Token::Identifier(_) => true,
        Token::RParen => true,
        _ => false,
    };
    operand && !after_exponent_start(tokens)
}

fn wants_product_before_number(tokens: &Vec<Token>) -> (r: bool)
    ensures
        r == product_before_number(lexemes(tokens@)),
{
    let n = tokens.len();
    if n == 0 {
        return false;
    }
    let operand = match &tokens[n - 1] {
        Token::Number(_) => true,
        Token::RParen => true,
        _ => false,
    };
    operand && !after_exponent_start(tokens)
}

/// Adds a token; the models follow.
fn push_token(tokens: &mut Vec<Token>, token: Token)
    ensures
        final(tokens)@ == old(tokens)@.push(token),
        lexemes(final(tokens)@) == lexemes(old(tokens)@).push(token@),
{
    tokens.push(token);
    proof {
        assert(lexemes(tokens@) =~= lexemes(old(tokens)@).push(token@));
    }
}

fn matches_at(chars: &Vec<char>, at: usize, end: usize, word: &str) -> (r: bool)
    requires
        at <= end <= chars.len(),
    ensures
        r == starts_with(chars@.take(end as int), at as int, word@),
{
    let n = word.unicode_len();
    if n > end - at {
        return false;
    }
    let ghost run = chars@.take(end as int);
    let mut k: usize = 0;
    while k < n
        invariant
            k <= n,
            n == word@.len(),
            at + n <= end,
            end <= chars.len(),
            run == chars@.take(end as int),
            forall|j: int| 0 <= j < k ==> run[at + j] == word@[j],
        decreases n - k,
    {
        if chars[at + k] != word.get_char(k) {
            proof {
                assert(run.subrange(at as int, at + n)[k as int] == run[at + k]);
            }
            return false;
        }
        k += 1;
    }
    proof {
        assert(run.subrange(at as int, at + n) =~= word@);
    }
    true
}

fn find_function(chars: &Vec<char>, at: usize, end: usize, kinds: &Vec<FunctionKind>) -> (r: Option<
    FunctionKind,
>)
    requires
        at <= end <= chars.len(),
        kinds@ == FunctionKind::by_length(),
    ensures
        r == function_at(chars@.take(end as int), at as int),
{
    let ghost run = chars@.take(end as int);
    let mut i: usize = 0;
    proof {
        assert(kinds@.skip(0) =~= kinds@);
    }
    while i < kinds.len()
        invariant
            i <= kinds.len(),
            at <= end <= chars.len(),
            run == chars@.take(end as int),
            kinds@ == FunctionKind::by_length(),
            function_at(run, at as int) == first_function_at(run, at as int, kinds@.skip(i as int)),
        decreases kinds.len() - i,
    {
        let kind = kinds[i];
        proof {
            assert(kinds@.skip(i as int)[0] == kind);
            assert(kinds@.skip(i as int).skip(1) =~= kinds@.skip(i + 1));
        }
        if matches_at(chars, at, end, kind.name_text()) {
            return Some(kind);
        }
        i += 1;
    }
    None
}

/// Adds the identifier from `pending` to `at`, if there is one.
fn push_gathered(input: &str, pending: usize, at: usize, tokens: &mut Vec<Token>)
    requires
        pending <= at <= input@.len(),
    ensures
        lexemes(final(tokens)@) == lexemes(old(tokens)@) + gathered(
            input@,
            pending as int,
            at as int,
        ),
{
    if pending < at {
        let name = String::from_str(input.substring_char(pending, at));
        push_token(tokens, Token::Identifier(name));
        proof {
            assert(lexemes(tokens@) =~= lexemes(old(tokens)@) + gathered(
                input@,
                pending as int,
                at as int,
            ));
        }
    } else {
        proof {
            assert(lexemes(tokens@) =~= lexemes(old(tokens)@) + gathered(
                input@,
                pending as int,
                at as int,
            ));
        }
    }
}

/// Adds the tokens of the run of letters from `start` to `end`.
fn push_segments(
    input: &str,
    chars: &Vec<char>,
    start: usize,
    end: usize,
    kinds: &Vec<FunctionKind>,
    tokens: &mut Vec<Token>,
)
    requires
        chars@ == input@,
        start <= end <= chars.len(),
        kinds@ == FunctionKind::by_length(),
    ensures
        lexemes(final(tokens)@) == lexemes(old(tokens)@) + segments(
            input@.take(end as int),
            start as int,
            start as int,
        ),
{
    let ghost run = input@.take(end as int);
    let ghost before = lexemes(tokens@);
    let mut at: usize = start;
    let mut pending: usize = start;
    proof {
        assert(before + segments(run, start as int, start as int) =~= lexemes(tokens@) + segments(
            run,
            at as int,
            pending as int,
        ));
    }
    while at < end
        invariant
            start <= pending <= at <= end <= chars.len(),
            chars@ == input@,
            run == input@.take(end as int),
            kinds@ == FunctionKind::by_length(),
            lexemes(tokens@) + segments(run, at as int, pending as int) == before + segments(
                run,
                start as int,
                start as int,
            ),
        decreases end - at,
    {
        let ghost so_far = lexemes(tokens@);
        match find_function(chars, at, end, kinds) {
            Some(kind) => {
                let word = kind.name_text();
                let n = word.unicode_len();
                proof {
                    lemma_function_at_is_longest(run, at as int);
                    assert(starts_with(run, at as int, kind.name()));
                    assert(n >= 3);
                    assert(gathered(run, pending as int, at as int) =~= gathered(
                        input@,
                        pending as int,
                        at as int,
                    )) by {
                        assert(run.subrange(pending as int, at as int) =~= input@.subrange(
                            pending as int,
                            at as int,
                        ));
                    }
                }
                push_gathered(input, pending, at, tokens);
                push_token(tokens, Token::Function(String::from_str(word)));
                proof {
                    assert(lexemes(tokens@) + segments(run, at + n, at + n) =~= so_far + segments(
                        run,
                        at as int,
                        pending as int,
                    ));
                }
                at = at + n;
                pending = at;
            },
            None => {
                at = at + 1;
            },
        }
    }
    proof {
        assert(gathered(run, pending as int, at as int) =~= gathered(
            input@,
            pending as int,
            at as int,
        )) by {
            assert(run.subrange(pending as int, at as int) =~= input@.subrange(
                pending as int,
                at as int,
            ));
        }
    }
    push_gathered(input, pending, at, tokens);
}

/// The name of a function consists of letters.
pub proof fn lemma_function_name_letters(kind: FunctionKind)
    ensures
        kind.name().len() >= 3,
        forall|i: int| 0 <= i < kind.name().len() ==> is_letter(#[trigger] kind.name()[i]),
{
}

/// What `first_function_at` finds is the first of `kinds` whose name stands
/// at the position; where it finds none, the name of none of them stands
/// there.
pub proof fn lemma_first_function_at(s: Seq<char>, at: int, kinds: Seq<FunctionKind>)
    ensures
        match first_function_at(s, at, kinds) {
            Some(kind) => exists|i: int|
                0 <= i < kinds.len() && #[trigger] kinds[i] == kind && starts_with(
                    s,
                    at,
                    kind.name(),
                ) && forall|j: int| 0 <= j < i ==> !starts_with(s, at, (#[trigger] kinds[j]).name()),
            None => forall|j: int|
                0 <= j < kinds.len() ==> !starts_with(s, at, (#[trigger] kinds[j]).name()),
        },
    decreases kinds.len(),
{
    if kinds.len() > 0 {
        if starts_with(s, at, kinds[0].name()) {
            assert(kinds[0] == kinds[0]);
        } else {
            let rest = kinds.skip(1);
            lemma_first_function_at(s, at, rest);
            match first_function_at(s, at, rest) {
                Some(kind) => {
                    let i = choose|i: int|
                        0 <= i < rest.len() && #[trigger] rest[i] == kind && starts_with(
                            s,
                            at,
                            kind.name(),
                        ) && forall|j: int|
                            0 <= j < i ==> !starts_with(s, at, (#[trigger] rest[j]).name());
                    assert(kinds[i + 1] == kind);
                    assert forall|j: int| 0 <= j < i + 1 implies !starts_with(
                        s,
                        at,
                        (#[trigger] kinds[j]).name(),
                    ) by {
                        if j > 0 {
                            assert(kinds[j] == rest[j - 1]);
                        }
                    }
                },
                None => {
                    assert forall|j: int| 0 <= j < kinds.len() implies !starts_with(
                        s,
                        at,
                        (#[trigger] kinds[j]).name(),
                    ) by {
                        if j > 0 {
                            assert(kinds[j] == rest[j - 1]);
                        }
                    }
                },
            }
        }
    }
}

/// The function that is found at a position stands there, and no function
/// with a longer name does; none is found only where none stands.
pub proof fn lemma_function_at_is_longest(s: Seq<char>, at: int)
    ensures
        match function_at(s, at) {
            Some(kind) => starts_with(s, at, kind.name()) && forall|other: FunctionKind|
                starts_with(s, at, #[trigger] other.name()) ==> other.name().len()
                    <= kind.name().len(),
            None => forall|other: FunctionKind| !starts_with(s, at, #[trigger] other.name()),
        },
{
    let kinds = FunctionKind::by_length();
    lemma_first_function_at(s, at, kinds);
    assert forall|i: int, j: int| 0 <= i <= j < kinds.len() implies (#[trigger] kinds[i]).name().len()
        >= (#[trigger] kinds[j]).name().len() by {
        assert(kinds[i].name().len() == if i < 6 {
            6nat
        } else if i == 6 {
            5nat
        } else if i == 7 {
            4nat
        } else {
            3nat
        });
        assert(kinds[j].name().len() == if j < 6 {
            6nat
        } else if j == 6 {
            5nat
        } else if j == 7 {
            4nat
        } else {
            3nat
        });
    }
    match function_at(s, at) {
        Some(kind) => {
            let i = choose|i: int|
                0 <= i < kinds.len() && #[trigger] kinds[i] == kind && starts_with(
                    s,
                    at,
                    kind.name(),
                ) && forall|j: int| 0 <= j < i ==> !starts_with(s, at, (#[trigger] kinds[j]).name());
            assert forall|other: FunctionKind| starts_with(
                s,
                at,
                #[trigger] other.name(),
            ) implies other.name().len() <= kind.name().len() by {
                lemma_all_listed(other);
                let j = choose|j: int| 0 <= j < kinds.len() && kinds[j] == other;
                assert(starts_with(s, at, kinds[j].name()));
                assert(j >= i);
            }
        },
        None => {
            assert forall|other: FunctionKind| !starts_with(s, at, #[trigger] other.name()) by {
                lemma_all_listed(other);
                let j = choose|j: int| 0 <= j < kinds.len() && kinds[j] == other;
                assert(!starts_with(s, at, kinds[j].name()));
            }
        },
    }
}

/// The first pass.
fn scan_tokens(input: &str, chars: &Vec<char>) -> (r: Result<Vec<Token>, TokenizeError>)
    requires
        chars@ == input@,
    ensures
        match scan(input@, 0, seq![]) {
            Ok(t) => r is Ok && lexemes(r->Ok_0@) == t,
            Err(e) => r is Err && r->Err_0 == e,
        },
{
    let kinds = FunctionKind::all();
    let mut tokens: Vec<Token> = Vec::new();
    let mut at: usize = 0;
    let ghost s = input@;
    proof {
        assert(lexemes(tokens@) =~= seq![]);
    }
    while at < chars.len()
        invariant
            at <= chars.len(),
            chars@ == input@,
            s == input@,
            kinds@ == FunctionKind::by_length(),
            scan(s, 0, seq![]) == scan(s, at as int, lexemes(tokens@)),
        decreases chars.len() - at,
    {
        let c = chars[at];
        let ghost acc = lexemes(tokens@);
        if check_number_char(c) {
            let mut end: usize = at + 1;
            while end < chars.len() && check_number_char(chars[end])
                invariant
                    at < end <= chars.len(),
                    chars@ == s,
                    number_end(s, at + 1) == number_end(s, end as int),
                decreases chars.len() - end,
            {
                end += 1;
            }
            let text = input.substring_char(at, end);
            let product = wants_product_before_number(&tokens);
            match Number::parse(text) {
                Some(value) => {
                    if product {
                        push_token(&mut tokens, Token::Mul);
                    }
                    push_token(&mut tokens, Token::Number(value));
                    at = end;
                },
                None => {
                    return Err(TokenizeError::InvalidNumber);
                },
            }
        } else if check_letter(c) {
            let mut end: usize = at + 1;
            while end < chars.len() && check_letter(chars[end])
                invariant
                    at < end <= chars.len(),
                    chars@ == s,
                    letters_end(s, at + 1) == letters_end(s, end as int),
                decreases chars.len() - end,
            {
                end += 1;
            }
            if wants_product_before_name(&tokens) {
                push_token(&mut tokens, Token::Mul);
            }
            push_segments(input, chars, at, end, &kinds, &mut tokens);
            at = end;
        } else if c == '(' {
            if wants_product_before_name(&tokens) {
                push_token(&mut tokens, Token::Mul);
            }
            push_token(&mut tokens, Token::LParen);
            at += 1;
        } else {
            match sign_token(c) {
                Some(token) => {
                    push_token(&mut tokens, token);
                    at += 1;
                },
                None => {
                    if check_blank(c) {
                        at += 1;
                    } else {
                        return Err(TokenizeError::UnknownCharacter(c));
                    }
                },
            }
        }
    }
    Ok(tokens)
}

fn check_implicit_power(tokens: &Vec<Token>, i: usize) -> (r: bool)
    requires
        i < tokens.len(),
    ensures
        r == implicit_power_at(lexemes(tokens@), i as int),
{
    let n = tokens.len();
    let identifier = match &tokens[i] {
        Token::Identifier(_) => true,
        _ => false,
    };
    if !identifier || n - i < 2 {
        return false;
    }
    let number = match &tokens[i + 1] {
        Token::Number(_) => true,
        _ => false,
    };
    if !number {
        return false;
    }
    if n - i < 3 {
        return true;
    }
    match &tokens[i + 2] {
        Token::Pow => false,
        _ => true,
    }
}

/// The second pass.
fn insert_powers(tokens: &Vec<Token>) -> (r: Vec<Token>)
    ensures
        lexemes(r@) == with_powers(lexemes(tokens@), tokens.len() as int),
{
    let mut out: Vec<Token> = Vec::new();
    let mut i: usize = 0;
    proof {
        assert(lexemes(out@) =~= with_powers(lexemes(tokens@), 0));
    }
    while i < tokens.len()
        invariant
            i <= tokens.len(),
            lexemes(out@) == with_powers(lexemes(tokens@), i as int),
        decreases tokens.len() - i,
    {
        push_token(&mut out, tokens[i].duplicate());
        if check_implicit_power(tokens, i) {
            push_token(&mut out, Token::Pow);
        }
        i += 1;
    }
    out
}

/// The tokens of a text. Numbers, names and signs become tokens; blanks are
/// dropped; a product sign is put between adjacent operands; a power sign is
/// put between an identifier and the number that follows it. Names consist
/// of the letters `a` to `z` and `A` to `Z`: any other letter, like any other
/// character that starts no token, is an unknown character, also where it
/// follows a name.
pub fn tokenize(input: &str) -> (r: Result<Vec<Token>, TokenizeError>)
    ensures
        match tokens_of(input@) {
            Ok(t) => r is Ok && lexemes(r->Ok_0@) == t,
            Err(e) => r is Err && r->Err_0 == e,
        },
{
    let chars = chars_of(input);
    match scan_tokens(input, &chars) {
        Ok(first) => Ok(insert_powers(&first)),
        Err(e) => Err(e),
    }
}

} // verus!

//! The whole way from the text of an expression to the text of its
//! simplified derivative.
use crate::ast::Expr;
use crate::derivative::derivative;
use crate::derivative::derivative_of;
use crate::function_table::unknown_function_prefix;
use crate::parser::Parser;
use crate::parser::tree_of;
use crate::simplifier::simplified;
use crate::simplifier::simplify;
use crate::text::chars_of;
use crate::tokenizer::is_letter;
use crate::tokenizer::tokenize;
use crate::tokenizer::tokens_of;
use vstd::prelude::*;
use vstd::string::StringExecFns;
use vstd::string::StrSliceExecFns;

verus! {

/// White space: the characters that Unicode gives the property `White_Space`.
pub open spec fn is_whitespace(c: char) -> bool {
    ||| ('\u{9}' <= c && c <= '\u{d}')
    ||| c == ' '
    ||| c == '\u{85}'
    ||| c == '\u{a0}'
    ||| c == '\u{1680}'
    ||| ('\u{2000}' <= c && c <= '\u{200a}')
    ||| c == '\u{2028}'
    ||| c == '\u{2029}'
    ||| c == '\u{202f}'
    ||| c == '\u{205f}'
    ||| c == '\u{3000}'
}

/// The first position from `from` on that holds no white space; the length
/// where there is none.
pub open spec fn content_start(s: Seq<char>, from: int) -> int
    decreases s.len() - from,
{
    if 0 <= from < s.len() && is_whitespace(s[from]) {
        content_start(s, from + 1)
    } else {
        from
    }
}

/// The position after the last character before `to` that is no white space;
/// zero where there is none.
pub open spec fn content_end(s: Seq<char>, to: int) -> int
    decreases to,
{
    if 0 < to <= s.len() && is_whitespace(s[to - 1]) {
        content_end(s, to - 1)
    } else {
        to
    }
}

/// The text without the white space at its two ends.
pub open spec fn trimmed(s: Seq<char>) -> Seq<char> {
    let start = content_start(s, 0);
    let end = content_end(s, s.len() as int);
    if 0 <= start < end <= s.len() {
        s.subrange(start, end)
    } else {
        seq![]
    }
}

/// Whether `variable` is one letter.
pub open spec fn is_variable(variable: Seq<char>) -> bool {
    variable.len() == 1 && is_letter(variable[0])
}

/// What differentiating the expression written in `source` with respect to
/// `variable` gives: the text of the simplified derivative, or a message.
pub open spec fn outcome(source: Seq<char>, variable: Seq<char>) -> Result<Seq<char>, Seq<char>> {
    let text = trimmed(source);
    if text.len() == 0 {
        Err("Input expression is empty"@)
    } else if !is_variable(variable) {
        Err("Variable must be a single alphabetic character"@)
    } else {
        match tokens_of(text) {
            Err(e) => Err("Tokenizer error: "@ + e.text()),
            Ok(tokens) => match tree_of(tokens) {
                Err(e) => Err("Parser error: "@ + e.text()),
                Ok(tree) => match derivative_of(tree, variable) {
                    Err(name) => Err("Differentiation error: "@ + (unknown_function_prefix() + name)),
                    Ok(d) => Ok(simplified(d).text()),
                },
            },
        }
    }
}

fn check_whitespace(c: char) -> (r: bool)
    ensures
        r == is_whitespace(c),
{
    ('\u{9}' <= c && c <= '\u{d}') || c == ' ' || c == '\u{85}' || c == '\u{a0}' || c == '\u{1680}'
        || ('\u{2000}' <= c && c <= '\u{200a}') || c == '\u{2028}' || c == '\u{2029}' || c
        == '\u{202f}' || c == '\u{205f}' || c == '\u{3000}'
}

/// The text without the white space at its two ends.
pub fn trim(source: &str) -> (r: &str)
    ensures
        r@ == trimmed(source@),
{
    let chars = chars_of(source);
    let mut start: usize = 0;
    while start < chars.len() && check_whitespace(chars[start])
        invariant
            start <= chars.len(),
            chars@ == source@,
            content_start(source@, 0) == content_start(source@, start as int),
        decreases chars.len() - start,
    {
        start += 1;
    }
    let mut end: usize = chars.len();
    while end > 0 && check_whitespace(chars[end - 1])
        invariant
            end <= chars.len(),
            chars@ == source@,
            content_end(source@, source@.len() as int) == content_end(source@, end as int),
        decreases end,
    {
        end -= 1;
    }
    if start < end {
        source.substring_char(start, end)
    } else {
        let r = source.substring_char(0, 0);
        proof {
            assert(r@ =~= seq![]);
        }
        r
    }
}

/// Whether `variable` is one letter.
pub fn check_variable(variable: &str) -> (r: bool)
    ensures
        r == is_variable(variable@),
{
    if variable.unicode_len() != 1 {
        return false;
    }
    let c = variable.get_char(0);
    ('a' <= c && c <= 'z') || ('A' <= c && c <= 'Z')
}

fn prefixed(prefix: &str, message: String) -> (r: String)
    ensures
        r@ == prefix@ + message@,
{
    let mut out = String::from_str(prefix);
    out.append(message.as_str());
    out
}

/// Differentiates the expression written in `source` with respect to
/// `variable` and gives the text of the simplified derivative. An empty
/// source and a variable that is not one letter are refused first; then the
/// first stage that fails gives its message, behind the name of the stage.
pub fn differentiate_expression(source: &str, variable: &str) -> (r: Result<String, String>)
    ensures
        match outcome(source@, variable@) {
            Ok(text) => r is Ok && r->Ok_0@ == text,
            Err(message) => r is Err && r->Err_0@ == message,
        },
{
    let text = trim(source);
    if text.unicode_len() == 0 {
        return Err(String::from_str("Input expression is empty"));
    }
    if !check_variable(variable) {
        return Err(String::from_str("Variable must be a single alphabetic character"));
    }
    let tokens = match tokenize(text) {
        Ok(tokens) => tokens,
        Err(e) => {
            return Err(prefixed("Tokenizer error: ", e.to_text()));
        },
    };
    let mut parser = Parser::new(tokens);
    let tree: Expr = match parser.parse() {
        Ok(tree) => tree,
        Err(e) => {
            return Err(prefixed("Parser error: ", e.to_text()));
        },
    };
    let derived = match derivative(&tree, variable) {
        Ok(derived) => derived,
        Err(e) => {
            return Err(prefixed("Differentiation error: ", e.to_text()));
        },
    };
    Ok(simplify(&derived).to_text())
}

} // verus!

//! The rules of the grammar and the tokens of a source.

use vstd::prelude::*;

verus! {

/// The rules of the grammar.
#[allow(non_camel_case_types)]
#[derive(Debug, Clone, Copy, PartialEq, Eq, Structural)]
pub enum Rule {
    /// A whole source unit: one namespace and nothing after it.
    pakken,
    /// A dotted name, an opening brace, entities, a closing brace.
    namespace,
    /// A dotted name.
    namespacename,
    /// A structure or an enumeration.
    entitytype,
    /// A structure: its name, its parent, its features between braces.
    entity,
    /// The word `enum`, a name, the members between braces.
    enumeration,
    /// A member of an enumeration, with its number where one is given.
    member,
    /// The name of the parent, after a colon.
    parententityname,
    /// An attribute or an operation.
    feature,
    /// A name, a colon, the name of a type, and how many.
    attribute,
    /// A name, parameters between round brackets, and the type of the result.
    operation,
    /// Parameters, with commas between them.
    parameterlist,
    /// A name, a colon, the name of a type.
    parameter,
    /// How many values an attribute holds.
    multiplicity,
    /// `*` or `+`.
    listmult,
    /// Two bounds between braces.
    multimult,
    /// One number between braces.
    singlemult,
    /// `?`.
    optionalmult,
    /// A name.
    identifier,
    /// A number without sign.
    number,
}

/// The rules of the grammar, under the name of the language.
pub type PakkenRule = Rule;

/// The name of a rule, as the grammar writes it.
pub open spec fn rule_name(rule: Rule) -> Seq<char> {
    match rule {
        Rule::pakken => "pakken"@,
        Rule::namespace => "namespace"@,
        Rule::namespacename => "namespacename"@,
        Rule::entitytype => "entitytype"@,
        Rule::entity => "entity"@,
        Rule::enumeration => "enumeration"@,
        Rule::member => "member"@,
        Rule::parententityname => "parententityname"@,
        Rule::feature => "feature"@,
        Rule::attribute => "attribute"@,
        Rule::operation => "operation"@,
        Rule::parameterlist => "parameterlist"@,
        Rule::parameter => "parameter"@,
        Rule::multiplicity => "multiplicity"@,
        Rule::listmult => "listmult"@,
        Rule::multimult => "multimult"@,
        Rule::singlemult => "singlemult"@,
        Rule::optionalmult => "optionalmult"@,
        Rule::identifier => "identifier"@,
        Rule::number => "number"@,
    }
}

impl Rule {
    /// The name of the rule, as the grammar writes it.
    pub fn name(&self) -> (name: &'static str)
        ensures
            name@ == rule_name(*self),
    {
        match self {
            Rule::pakken => "pakken",
            Rule::namespace => "namespace",
            Rule::namespacename => "namespacename",
            Rule::entitytype => "entitytype",
            Rule::entity => "entity",
            Rule::enumeration => "enumeration",
            Rule::member => "member",
            Rule::parententityname => "parententityname",
            Rule::feature => "feature",
            Rule::attribute => "attribute",
            Rule::operation => "operation",
            Rule::parameterlist => "parameterlist",
            Rule::parameter => "parameter",
            Rule::multiplicity => "multiplicity",
            Rule::listmult => "listmult",
            Rule::multimult => "multimult",
            Rule::singlemult => "singlemult",
            Rule::optionalmult => "optionalmult",
            Rule::identifier => "identifier",
            Rule::number => "number",
        }
    }
}

/// The kinds of tokens.
#[derive(Debug, Clone, Copy, PartialEq, Eq, Structural)]
pub enum TokenKind {
    /// A name: a letter, then letters, digits and underscores.
    Name,
    /// Two names or more with a dot between each two.
    Path,
    /// Digits.
    Number,
    /// `{`
    OpenBrace,
    /// `}`
    CloseBrace,
    /// `(`
    OpenParen,
    /// `)`
    CloseParen,
    /// `:`
    Colon,
    /// `,`
    Comma,
    /// `*`
    Star,
    /// `+`
    Plus,
    /// `?`
    Question,
    /// `..`
    Range,
    /// `=`
    Equals,
}

/// A token: its kind and where it stands in the source, from `start` up to
/// but not including `end`, counted in characters.
#[derive(Debug, Clone, Copy, PartialEq, Eq, Structural)]
pub struct Token {
    pub kind: TokenKind,
    pub start: usize,
    pub end: usize,
}

/// Why a source is not accepted.
#[derive(Debug, Clone, Copy, PartialEq, Eq, Structural)]
pub enum FailureKind {
    /// The source does not follow the grammar.
    Syntax,
    /// A number does not fit the machine.
    NumberTooLarge,
    /// A namespace declares two entities of one name, or one with the name
    /// of a built-in type.
    DuplicateEntity,
}

/// Where and why a source is not accepted: the rule that does not match,
/// and the character at which it does not, counted from zero.
#[derive(Debug, Clone, Copy, PartialEq, Eq, Structural)]
pub struct Failure {
    pub rule: Rule,
    pub position: usize,
    pub kind: FailureKind,
}

/// Whether `c` separates tokens without being one.
pub open spec fn is_blank(c: char) -> bool {
    c == ' ' || c == '\t' || c == '\n' || c == '\r'
}

/// Whether `c` is a letter of the Latin alphabet.
pub open spec fn is_letter(c: char) -> bool {
    ('a' <= c && c <= 'z') || ('A' <= c && c <= 'Z')
}

/// Whether `c` is a decimal digit.
pub open spec fn is_digit(c: char) -> bool {
    '0' <= c && c <= '9'
}

/// Whether `c` may stand in a name after its first letter.
pub open spec fn is_name_char(c: char) -> bool {
    is_letter(c) || is_digit(c) || c == '_'
}

/// Where the run of name characters that starts at `pos` ends.
pub open spec fn name_end(input: Seq<char>, pos: int) -> int
    decreases input.len() - pos,
{
    if 0 <= pos < input.len() && is_name_char(input[pos]) {
        name_end(input, pos + 1)
    } else {
        pos
    }
}

/// Where the run of digits that starts at `pos` ends.
pub open spec fn digits_end(input: Seq<char>, pos: int) -> int
    decreases input.len() - pos,
{
    if 0 <= pos < input.len() && is_digit(input[pos]) {
        digits_end(input, pos + 1)
    } else {
        pos
    }
}

/// Where the dotted name ends whose first name ends at `pos`: it goes on
/// for as long as a dot and a letter follow.
pub open spec fn path_end(input: Seq<char>, pos: int) -> int
    decreases input.len() - pos,
{
    if 0 <= pos && pos + 1 < input.len() && input[pos] == '.' && is_letter(input[pos + 1]) {
        let next = name_end(input, pos + 1);
        if pos < next <= input.len() {
            path_end(input, next)
        } else {
            pos
        }
    } else {
        pos
    }
}

/// The token of one or two characters that starts at `pos`, if one does.
pub open spec fn sign_at(input: Seq<char>, pos: int) -> Option<(TokenKind, int)> {
    let c = input[pos];
    if c == '{' {
        Some((TokenKind::OpenBrace, 1))
    } else if c == '}' {
        Some((TokenKind::CloseBrace, 1))
    } else if c == '(' {
        Some((TokenKind::OpenParen, 1))
    } else if c == ')' {
        Some((TokenKind::CloseParen, 1))
    } else if c == ':' {
        Some((TokenKind::Colon, 1))
    } else if c == ',' {
        Some((TokenKind::Comma, 1))
    } else if c == '*' {
        Some((TokenKind::Star, 1))
    } else if c == '+' {
        Some((TokenKind::Plus, 1))
    } else if c == '?' {
        Some((TokenKind::Question, 1))
    } else if c == '=' {
        Some((TokenKind::Equals, 1))
    } else if c == '.' && pos + 1 < input.len() && input[pos + 1] == '.' {
        Some((TokenKind::Range, 2))
    } else {
        None
    }
}

/// The token that starts at `pos`, where a character stands that is not
/// blank; nothing where no token starts with that character.
pub open spec fn token_at(input: Seq<char>, pos: int) -> Option<Token> {
    let c = input[pos];
    if is_letter(c) {
        let first = name_end(input, pos);
        let end = path_end(input, first);
        Some(
            Token {
                kind: if end > first {
                    TokenKind::Path
                } else {
                    TokenKind::Name
                },
                start: pos as usize,
                end: end as usize,
            },
        )
    } else if is_digit(c) {
        Some(
            Token {
                kind: TokenKind::Number,
                start: pos as usize,
                end: digits_end(input, pos) as usize,
            },
        )
    } else {
        match sign_at(input, pos) {
            Some((kind, length)) => Some(
                Token { kind, start: pos as usize, end: (pos + length) as usize },
            ),
            None => None,
        }
    }
}

/// The tokens of `input` from `pos` on, after the tokens `found` before it;
/// or the place of the first character with which no token starts.
pub open spec fn tokens_from(input: Seq<char>, pos: int, found: Seq<Token>) -> Result<
    Seq<Token>,
    Failure,
>
    decreases input.len() - pos,
{
    if pos < 0 || pos >= input.len() {
        Ok(found)
    } else if is_blank(input[pos]) {
        tokens_from(input, pos + 1, found)
    } else {
        match token_at(input, pos) {
            Some(token) => {
                if pos < token.end <= input.len() {
                    tokens_from(input, token.end as int, found.push(token))
                } else {
                    Err(unexpected(pos))
                }
            },
            None => Err(unexpected(pos)),
        }
    }
}

/// The failure for a character with which no token starts.
pub open spec fn unexpected(pos: int) -> Failure {
    Failure { rule: Rule::pakken, position: pos as usize, kind: FailureKind::Syntax }
}

/// The tokens of `input`.
pub open spec fn tokens_of(input: Seq<char>) -> Result<Seq<Token>, Failure> {
    tokens_from(input, 0, Seq::empty())
}

/// Whether every token lies within a text of `length` characters and holds
/// at least one.
pub open spec fn tokens_within(tokens: Seq<Token>, length: int) -> bool {
    forall|i: int| 0 <= i < tokens.len() ==> (#[trigger] tokens[i]).start < tokens[i].end <= length
}

/// The run of name characters ends within the text, and at or after its
/// start.
pub proof fn lemma_name_end(input: Seq<char>, pos: int)
    requires
        0 <= pos <= input.len(),
    ensures
        pos <= name_end(input, pos) <= input.len(),
        0 <= pos < input.len() && is_name_char(input[pos]) ==> pos < name_end(input, pos),
    decreases input.len() - pos,
{
    if pos < input.len() && is_name_char(input[pos]) {
        lemma_name_end(input, pos + 1);
    }
}

/// The run of digits ends within the text, and at or after its start.
pub proof fn lemma_digits_end(input: Seq<char>, pos: int)
    requires
        0 <= pos <= input.len(),
    ensures
        pos <= digits_end(input, pos) <= input.len(),
        0 <= pos < input.len() && is_digit(input[pos]) ==> pos < digits_end(input, pos),
    decreases input.len() - pos,
{
    if pos < input.len() && is_digit(input[pos]) {
        lemma_digits_end(input, pos + 1);
    }
}

fn blank(c: char) -> (r: bool)
    ensures
        r == is_blank(c),
{
    c == ' ' || c == '\t' || c == '\n' || c == '\r'
}

fn letter(c: char) -> (r: bool)
    ensures
        r == is_letter(c),
{
    ('a' <= c && c <= 'z') || ('A' <= c && c <= 'Z')
}

fn decimal_digit(c: char) -> (r: bool)
    ensures
        r == is_digit(c),
{
    '0' <= c && c <= '9'
}

fn name_char(c: char) -> (r: bool)
    ensures
        r == is_name_char(c),
{
    letter(c) || decimal_digit(c) || c == '_'
}

fn scan_name(input: &Vec<char>, pos: usize) -> (end: usize)
    requires
        pos <= input.len(),
    ensures
        end == name_end(input@, pos as int),
        pos <= end <= input.len(),
{
    let mut end = pos;
    while end < input.len() && name_char(input[end])
        invariant
            pos <= end <= input.len(),
            name_end(input@, pos as int) == name_end(input@, end as int),
        decreases input.len() - end,
    {
        end = end + 1;
    }
    end
}

fn scan_digits(input: &Vec<char>, pos: usize) -> (end: usize)
    requires
        pos <= input.len(),
    ensures
        end == digits_end(input@, pos as int),
        pos <= end <= input.len(),
{
    let mut end = pos;
    while end < input.len() && decimal_digit(input[end])
        invariant
            pos <= end <= input.len(),
            digits_end(input@, pos as int) == digits_end(input@, end as int),
        decreases input.len() - end,
    {
        end = end + 1;
    }
    end
}

fn scan_path(input: &Vec<char>, pos: usize) -> (end: usize)
    requires
        pos <= input.len(),
    ensures
        end == path_end(input@, pos as int),
        pos <= end <= input.len(),
{
    let mut end = pos;
    while end < input.len() && input.len() - end > 1 && input[end] == '.' && letter(input[end + 1])
        invariant
            pos <= end <= input.len(),
            path_end(input@, pos as int) == path_end(input@, end as int),
        decreases input.len() - end,
    {
        proof {
            lemma_name_end(input@, end + 1);
        }
        end = scan_name(input, end + 1);
    }
    end
}

fn sign(input: &Vec<char>, pos: usize) -> (found: Option<(TokenKind, usize)>)
    requires
        pos < input.len(),
    ensures
        match found {
            Some((kind, length)) => sign_at(input@, pos as int) == Some((kind, length as int))
                && 1 <= length && pos + length <= input.len(),
            None => sign_at(input@, pos as int) is None,
        },
{
    let c = input[pos];
    if c == '{' {
        Some((TokenKind::OpenBrace, 1))
    } else if c == '}' {
        Some((TokenKind::CloseBrace, 1))
    } else if c == '(' {
        Some((TokenKind::OpenParen, 1))
    } else if c == ')' {
        Some((TokenKind::CloseParen, 1))
    } else if c == ':' {
        Some((TokenKind::Colon, 1))
    } else if c == ',' {
        Some((TokenKind::Comma, 1))
    } else if c == '*' {
        Some((TokenKind::Star, 1))
    } else if c == '+' {
        Some((TokenKind::Plus, 1))
    } else if c == '?' {
        Some((TokenKind::Question, 1))
    } else if c == '=' {
        Some((TokenKind::Equals, 1))
    } else if c == '.' && input.len() - pos > 1 && input[pos + 1] == '.' {
        Some((TokenKind::Range, 2))
    } else {
        None
    }
}

/// Splits `input` into tokens. Blanks separate tokens; a character with
/// which no token starts is a failure at its place.
pub fn tokenize(input: &Vec<char>) -> (found: Result<Vec<Token>, Failure>)
    ensures
        match found {
            Ok(tokens) => tokens_of(input@) == Ok::<Seq<Token>, Failure>(tokens@)
                && tokens_within(tokens@, input@.len() as int),
            Err(failure) => tokens_of(input@) == Err::<Seq<Token>, Failure>(failure)
                && failure.position < input@.len(),
        },
{
    let mut tokens: Vec<Token> = Vec::new();
    let mut pos: usize = 0;
    while pos < input.len()
        invariant
            pos <= input.len(),
            tokens_of(input@) == tokens_from(input@, pos as int, tokens@),
            tokens_within(tokens@, input@.len() as int),
        decreases input.len() - pos,
    {
        let c = input[pos];
        if blank(c) {
            pos = pos + 1;
        } else {
            let token = if letter(c) {
                let first = scan_name(input, pos);
                let end = scan_path(input, first);
                proof {
                    lemma_name_end(input@, pos as int);
                }
                Token {
                    kind: if end > first {
                        TokenKind::Path
                    } else {
                        TokenKind::Name
                    },
                    start: pos,
                    end,
                }
            } else if decimal_digit(c) {
                proof {
                    lemma_digits_end(input@, pos as int);
                }
                Token { kind: TokenKind::Number, start: pos, end: scan_digits(input, pos) }
            } else {
                match sign(input, pos) {
                    Some((kind, length)) => Token { kind, start: pos, end: pos + length },
                    None => {
                        return Err(
                            Failure {
                                rule: Rule::pakken,
                                position: pos,
                                kind: FailureKind::Syntax,
                            },
                        );
                    },
                }
            };
            assert(token_at(input@, pos as int) == Some(token));
            tokens.push(token);
            pos = token.end;
        }
    }
    Ok(tokens)
}

} // verus!

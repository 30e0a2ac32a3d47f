//! Tokens: what one command line argument lexes to, and the grammar that decides it.
//!
//! | argument       | token                     | condition          |
//! |----------------|---------------------------|--------------------|
//! | `--name`       | `Switch`                  | `name` has 2+ chars |
//! | `-n`           | `Switch`                  | `n` is one char    |
//! | `--name=value` | `SwitchWithValue`         | `name` has 2+ chars |
//! | `-n=value`     | `SwitchWithValue`         | `n` is one char    |
//! | anything else  | `Operand`                 |                    |

use crate::text::find_char;
use vstd::prelude::*;

verus! {

/// A token, as a mathematical value.
pub enum Token {
    /// A switch without a value, such as `--verbose`.
    Switch { name: Seq<char> },
    /// A switch with a value, such as `--level=3`.
    SwitchWithValue { name: Seq<char>, value: Seq<char> },
    /// A positional argument. Operands are numbered from 0 in the order they were given.
    Operand { position: nat, value: Seq<char> },
    /// The slot of a token that has been taken.
    Empty,
}

/// The dashes in front of a switch called `name`: one for a name of one character, else two.
pub open spec fn dashes(name: Seq<char>) -> Seq<char> {
    if name.len() == 1 {
        seq!['-']
    } else {
        seq!['-', '-']
    }
}

impl Token {
    /// The canonical text of a token: `-n` or `--name`, `-n=value` or `--name=value`, the
    /// operand itself; nothing for an empty slot.
    pub open spec fn render(self) -> Seq<char> {
        match self {
            Token::Switch { name } => dashes(name) + name,
            Token::SwitchWithValue { name, value } => dashes(name) + name + seq!['='] + value,
            Token::Operand { value, .. } => value,
            Token::Empty => Seq::empty(),
        }
    }
}

/// A token as it is stored.
#[derive(Debug, PartialEq, Eq)]
pub enum Arg {
    Switch { name: String },
    SwitchWithValue { name: String, value: String },
    Operand { position: usize, value: String },
    Empty,
}

impl View for Arg {
    type V = Token;

    open spec fn view(&self) -> Token {
        match self {
            Arg::Switch { name } => Token::Switch { name: name@ },
            Arg::SwitchWithValue { name, value } => Token::SwitchWithValue {
                name: name@,
                value: value@,
            },
            Arg::Operand { position, value } => Token::Operand {
                position: *position as nat,
                value: value@,
            },
            Arg::Empty => Token::Empty,
        }
    }
}

impl Default for Arg {
    /// The empty slot.
    fn default() -> (arg: Self)
        ensures
            arg@ is Empty,
    {
        Arg::Empty
    }
}

impl Clone for Arg {
    fn clone(&self) -> (copy: Self)
        ensures
            copy@ == self@,
    {
        match self {
            Arg::Switch { name } => Arg::Switch { name: name.clone() },
            Arg::SwitchWithValue { name, value } => Arg::SwitchWithValue {
                name: name.clone(),
                value: value.clone(),
            },
            Arg::Operand { position, value } => Arg::Operand {
                position: *position,
                value: value.clone(),
            },
            Arg::Empty => Arg::Empty,
        }
    }
}

/// The tokens that a list of stored tokens stands for.
pub open spec fn tokens_of(args: Seq<Arg>) -> Seq<Token> {
    args.map_values(|a: Arg| a@)
}

/// Why an argument is no token. Each error carries the argument as it was given.
#[derive(Debug, PartialEq, Eq)]
pub enum ParseError {
    /// A switch with a value whose name is missing or of the wrong length, such as `--=value`.
    MalformedOption(String),
    /// A switch whose name is missing or of the wrong length, such as `--s` or `-long`.
    MalformedFlag(String),
}

/// A `ParseError` as a mathematical value.
pub enum ParseErrorView {
    MalformedOption(Seq<char>),
    MalformedFlag(Seq<char>),
}

impl ParseErrorView {
    /// The sentence that reports the error.
    pub open spec fn message(self) -> Seq<char> {
        match self {
            ParseErrorView::MalformedOption(raw) => seq!['\''] + raw + "' is not a valid option"@,
            ParseErrorView::MalformedFlag(raw) => seq!['\''] + raw + "' is not a valid flag"@,
        }
    }
}

impl View for ParseError {
    type V = ParseErrorView;

    open spec fn view(&self) -> ParseErrorView {
        match self {
            ParseError::MalformedOption(raw) => ParseErrorView::MalformedOption(raw@),
            ParseError::MalformedFlag(raw) => ParseErrorView::MalformedFlag(raw@),
        }
    }
}

impl Clone for ParseError {
    fn clone(&self) -> (copy: Self)
        ensures
            copy@ == self@,
    {
        match self {
            ParseError::MalformedOption(raw) => ParseError::MalformedOption(raw.clone()),
            ParseError::MalformedFlag(raw) => ParseError::MalformedFlag(raw.clone()),
        }
    }
}

impl ParseError {
    /// The sentence that reports the error.
    pub fn message(&self) -> (r: String)
        ensures
            r@ == self@.message(),
    {
        proof {
            reveal_strlit("'");
        }
        let mut text = String::from_str("'");
        match self {
            ParseError::MalformedOption(raw) => {
                text.append(raw.as_str());
                text.append("' is not a valid option");
            },
            ParseError::MalformedFlag(raw) => {
                text.append(raw.as_str());
                text.append("' is not a valid flag");
            },
        }
        text
    }
}

/// Whether a switch may be called `name`: two characters or more behind two dashes,
/// exactly one behind a single dash.
pub open spec fn name_fits(name: Seq<char>, long: bool) -> bool {
    if long {
        name.len() >= 2
    } else {
        name.len() == 1
    }
}

/// The switch that `raw` is, where `body` is what follows its dashes. With an `=` in it,
/// `body` is a name, the first `=`, and a value; without, it is a name.
pub open spec fn lex_switch(raw: Seq<char>, body: Seq<char>, long: bool) -> Result<
    Token,
    ParseErrorView,
> {
    match body.index_of_first('=') {
        Some(i) => {
            if name_fits(body.take(i), long) {
                Ok(Token::SwitchWithValue { name: body.take(i), value: body.skip(i + 1) })
            } else {
                Err(ParseErrorView::MalformedOption(raw))
            }
        },
        None => {
            if name_fits(body, long) {
                Ok(Token::Switch { name: body })
            } else {
                Err(ParseErrorView::MalformedFlag(raw))
            }
        },
    }
}

/// The token that the argument `raw` is. If it is an operand, its number is `position`.
pub open spec fn lex(raw: Seq<char>, position: nat) -> Result<Token, ParseErrorView> {
    if raw.len() >= 2 && raw[0] == '-' && raw[1] == '-' {
        lex_switch(raw, raw.skip(2), true)
    } else if raw.len() >= 1 && raw[0] == '-' {
        lex_switch(raw, raw.skip(1), false)
    } else {
        Ok(Token::Operand { position, value: raw })
    }
}

/// A well-formed argument reads back as it was written.
pub proof fn lemma_render_lex(raw: Seq<char>, position: nat)
    ensures
        lex(raw, position) matches Ok(token) ==> token.render() == raw && !(token is Empty),
{
    if raw.len() >= 1 && raw[0] == '-' {
        let body = if raw.len() >= 2 && raw[1] == '-' {
            raw.skip(2)
        } else {
            raw.skip(1)
        };
        body.index_of_first_ensures('=');
    }
}

impl Arg {
    /// The canonical text of the token.
    pub fn render(&self) -> (r: String)
        ensures
            r@ == self@.render(),
    {
        proof {
            reveal_strlit("-");
            reveal_strlit("--");
            reveal_strlit("=");
        }
        match self {
            Arg::Switch { name } => {
                let mut text = if name.as_str().unicode_len() == 1 {
                    String::from_str("-")
                } else {
                    String::from_str("--")
                };
                text.append(name.as_str());
                text
            },
            Arg::SwitchWithValue { name, value } => {
                let mut text = if name.as_str().unicode_len() == 1 {
                    String::from_str("-")
                } else {
                    String::from_str("--")
                };
                text.append(name.as_str());
                text.append("=");
                text.append(value.as_str());
                text
            },
            Arg::Operand { value, .. } => value.clone(),
            Arg::Empty => String::new(),
        }
    }

    /// Whether the slot is empty.
    pub fn is_empty(&self) -> (b: bool)
        ensures
            b == (self@ is Empty),
    {
        match self {
            Arg::Empty => true,
            _ => false,
        }
    }

    /// The value of an operand.
    pub fn into_operand(self) -> (value: String)
        requires
            self@ is Operand,
        ensures
            value@ == self@->Operand_value,
    {
        match self {
            Arg::Operand { value, .. } => value,
            _ => unreached(),
        }
    }

    /// The value of a switch that has one.
    pub fn into_switch_with_value(self) -> (value: String)
        requires
            self@ is SwitchWithValue,
        ensures
            value@ == self@->SwitchWithValue_value,
    {
        match self {
            Arg::SwitchWithValue { value, .. } => value,
            _ => unreached(),
        }
    }
}

/// Lexes the switch `raw`, whose dashes are followed by `body`.
fn lex_switch_arg(raw: &str, body: &str, long: bool) -> (r: Result<Arg, ParseError>)
    ensures
        match r {
            Ok(arg) => lex_switch(raw@, body@, long) == Ok::<Token, ParseErrorView>(arg@),
            Err(e) => lex_switch(raw@, body@, long) == Err::<Token, ParseErrorView>(e@),
        },
{
    let len = body.unicode_len();
    match find_char(body, '=') {
        Some(i) => {
            proof {
                body@.index_of_first_ensures('=');
            }
            let fits = if long {
                i >= 2
            } else {
                i == 1
            };
            if fits {
                let name = body.substring_char(0, i);
                let value = body.substring_char(i + 1, len);
                Ok(Arg::SwitchWithValue { name: name.to_owned(), value: value.to_owned() })
            } else {
                Err(ParseError::MalformedOption(raw.to_owned()))
            }
        },
        None => {
            let fits = if long {
                len >= 2
            } else {
                len == 1
            };
            if fits {
                Ok(Arg::Switch { name: body.to_owned() })
            } else {
                Err(ParseError::MalformedFlag(raw.to_owned()))
            }
        },
    }
}

/// Lexes the argument `raw`. If it is an operand, its number is `position`.
pub fn lex_arg(raw: &str, position: usize) -> (r: Result<Arg, ParseError>)
    ensures
        match r {
            Ok(arg) => lex(raw@, position as nat) == Ok::<Token, ParseErrorView>(arg@),
            Err(e) => lex(raw@, position as nat) == Err::<Token, ParseErrorView>(e@),
        },
{
    let len = raw.unicode_len();
    if len >= 2 && raw.get_char(0) == '-' && raw.get_char(1) == '-' {
        lex_switch_arg(raw, raw.substring_char(2, len), true)
    } else if len >= 1 && raw.get_char(0) == '-' {
        lex_switch_arg(raw, raw.substring_char(1, len), false)
    } else {
        Ok(Arg::Operand { position, value: raw.to_owned() })
    }
}

} // verus!

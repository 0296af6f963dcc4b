//! Decoding one line into a [`Message`].
//!
//! The functions here never copy: every string slice they return is a part of
//! the slice they were given.

use crate::parsers::error::{ErrorKind, MessageParsingError};
use crate::parsers::grammar::{
    classify, decode, lemma_leading_spaces, lemma_token_shape, lemma_token_split,
    lemma_trim_start_idempotent, next_param, next_token, param_list, rest_after_token, text_left,
    with_params, MessageView, ParamView, TokenView,
};
use crate::parsers::span::{
    find_space, leading_byte, lemma_boundary_at_ascii, lemma_first_byte, lemma_no_space_bytes,
    lemma_same_code, split_str, strip_first, trim_spaces, AT_SIGN, COLON, SPACE,
};
use vstd::prelude::*;
use vstd::string::StringSliceAdditionalSpecFns;
use vstd::utf8::encode_utf8_valid_utf8;

verus! {

/// A decoded line. Its parts borrow from the line.
#[derive(Debug)]
pub struct Message<'a> {
    /// The tag block, without its `@` and not unescaped.
    pub tags: Option<&'a str>,
    /// The sender, without its `:`.
    pub prefix: Option<&'a str>,
    /// The command: a verb or a numeric reply code.
    pub command: Option<&'a str>,
    /// The parameters, in the order of the line.
    pub params: Vec<&'a str>,
}

impl<'a> View for Message<'a> {
    type V = MessageView;

    open spec fn view(&self) -> MessageView {
        MessageView {
            tags: self.tags.deep_view(),
            prefix: self.prefix.deep_view(),
            command: self.command.deep_view(),
            params: self.params.deep_view(),
        }
    }
}

impl<'a> Message<'a> {
    /// A message with no tags, no prefix, no command and no parameters.
    pub fn new() -> (message: Self)
        ensures
            message@ == (MessageView {
                tags: None,
                prefix: None,
                command: None,
                params: Seq::empty(),
            }),
    {
        let message = Message { tags: None, prefix: None, command: None, params: Vec::new() };
        assert(message.params.deep_view() =~= Seq::empty());
        message
    }

    /// Adds `param` after the parameters that the message has.
    pub fn add_param(&mut self, param: &'a str)
        ensures
            final(self)@ == (MessageView {
                params: old(self)@.params.push(param@),
                ..old(self)@
            }),
    {
        self.params.push(param);
        assert(self.params.deep_view() =~= old(self).params.deep_view().push(param@));
    }
}

/// A token at the head of a line, by what it is taken for.
#[derive(PartialEq, Debug)]
pub enum Token<'a> {
    /// A tag block, without its `@`.
    Tags(&'a str),
    /// A prefix, without its `:`.
    Prefix(&'a str),
    /// A command.
    Command(&'a str),
}

impl<'a> View for Token<'a> {
    type V = TokenView;

    open spec fn view(&self) -> TokenView {
        match *self {
            Token::Tags(s) => TokenView::Tags(s@),
            Token::Prefix(s) => TokenView::Prefix(s@),
            Token::Command(s) => TokenView::Command(s@),
        }
    }
}

/// One parameter of a message.
#[derive(PartialEq, Debug)]
pub enum Param<'a> {
    /// A parameter of one token.
    Middle(&'a str),
    /// The last parameter, without its `:`; it may hold spaces.
    Trailing(&'a str),
}

impl<'a> View for Param<'a> {
    type V = ParamView;

    open spec fn view(&self) -> ParamView {
        match *self {
            Param::Middle(s) => ParamView::Middle(s@),
            Param::Trailing(s) => ParamView::Trailing(s@),
        }
    }
}

/// The outcome of classifying a token, over views.
pub open spec fn token_result(r: Result<Token<'_>, MessageParsingError>) -> Result<
    TokenView,
    ErrorKind,
> {
    match r {
        Ok(token) => Ok(token@),
        Err(error) => Err(error.kind),
    }
}

/// The outcome of reading a parameter, over views.
pub open spec fn param_result(
    r: Result<(Param<'_>, Option<&str>), MessageParsingError>,
) -> Result<(ParamView, Option<Seq<char>>), ErrorKind> {
    match r {
        Ok((param, rest)) => Ok((param@, rest.deep_view())),
        Err(error) => Err(error.kind),
    }
}

/// The outcome of decoding a line, over views.
pub open spec fn message_result(r: Result<Message<'_>, MessageParsingError>) -> Result<
    MessageView,
    ErrorKind,
> {
    match r {
        Ok(message) => Ok(message@),
        Err(error) => Err(error.kind),
    }
}

/// Cuts the token that `text` starts with from what follows it.
fn split_token<'a>(text: &'a str) -> (r: (&'a str, Option<&'a str>))
    requires
        text@.len() > 0,
        text@[0] != ' ',
    ensures
        next_token(text@) == Some(r.0@),
        rest_after_token(text@) == r.1.deep_view(),
{
    let bytes = text.as_bytes();
    let end: usize = find_space(bytes);
    proof {
        encode_utf8_valid_utf8(text@);
        lemma_boundary_at_ascii(bytes@, end as int);
    }
    let (token, rest) = split_str(text, end);
    proof {
        lemma_no_space_bytes(token@);
        assert(token@.len() > 0) by {
            lemma_first_byte(text@);
            if bytes@[0] == SPACE {
                lemma_same_code(text@[0], ' ');
            }
            assert(token.spec_bytes().len() == end);
        }
        if rest@.len() > 0 {
            lemma_first_byte(rest@);
            assert(rest.spec_bytes()[0] == bytes@[end as int]);
            lemma_same_code(rest@[0], ' ');
        }
        lemma_token_split(Seq::empty(), token@, rest@);
        assert(Seq::<char>::empty() + token@ + rest@ =~= text@);
    }
    if rest.is_empty() {
        (token, None)
    } else {
        (token, Some(rest))
    }
}

/// Reads the first token of `input`.
///
/// Returns the token and the text that follows it. The text starts at the
/// space that ends the token, so that it can be handed to this function
/// again. Both are `None` when `input` is empty or holds only spaces; the
/// text alone is `None` when the token ends `input`.
pub fn consume_from_left<'a>(input: &'a str) -> (r: (Option<&'a str>, Option<&'a str>))
    ensures
        r.0.deep_view() == next_token(input@),
        r.1.deep_view() == rest_after_token(input@),
{
    let text = trim_spaces(input);
    if text.is_empty() {
        return (None, None);
    }
    proof {
        lemma_leading_spaces(input@);
        lemma_trim_start_idempotent(input@);
    }
    let (token, rest) = split_token(text);
    (Some(token), rest)
}

/// Says what `token` is: tags, a prefix or a command.
///
/// `first_token` tells whether it is the first token of its line. Tags may
/// only come first and a command may not. The sign that marks tags or a
/// prefix is left out of what is returned.
pub fn identify_token<'a>(token: Option<&'a str>, first_token: bool) -> (r: Result<
    Token<'a>,
    MessageParsingError,
>)
    ensures
        token_result(r) == classify(token.deep_view(), first_token),
{
    match token {
        None => Err(MessageParsingError::new(ErrorKind::MissingToken)),
        Some(seq) => {
            let sign = leading_byte(seq);
            proof {
                if let Some(byte) = sign {
                    if byte == AT_SIGN {
                        lemma_same_code(seq@[0], '@');
                    }
                    if byte == COLON {
                        lemma_same_code(seq@[0], ':');
                    }
                }
            }
            if sign == Some(AT_SIGN) {
                if first_token {
                    Ok(Token::Tags(strip_first(seq)))
                } else {
                    Err(MessageParsingError::new(ErrorKind::MisplacedTags))
                }
            } else if sign == Some(COLON) {
                Ok(Token::Prefix(strip_first(seq)))
            } else if first_token {
                Err(MessageParsingError::new(ErrorKind::ExpectedTagsOrPrefix))
            } else {
                Ok(Token::Command(seq))
            }
        },
    }
}

/// Reads one parameter from the parameter text `current`.
///
/// Returns the parameter and the text that follows it. The spaces that the
/// text starts with are skipped. A parameter that starts with `:` is the
/// trailing one: it takes the rest of the text, and no text follows it. Any
/// other parameter is one token. With no text, or only spaces, there is no
/// parameter to read, which is an error.
pub fn consume_params<'a>(current: Option<&'a str>) -> (r: Result<
    (Param<'a>, Option<&'a str>),
    MessageParsingError,
>)
    ensures
        param_result(r) == next_param(current.deep_view()),
{
    match current {
        None => Err(MessageParsingError::new(ErrorKind::MissingParameterData)),
        Some(seq) => {
            let text = trim_spaces(seq);
            let sign = leading_byte(text);
            proof {
                if let Some(byte) = sign {
                    if byte == COLON {
                        lemma_same_code(text@[0], ':');
                    }
                }
            }
            if sign.is_none() {
                Err(MessageParsingError::new(ErrorKind::MissingParameterData))
            } else if sign == Some(COLON) {
                Ok((Param::Trailing(strip_first(text)), None))
            } else {
                proof {
                    lemma_leading_spaces(seq@);
                    lemma_trim_start_idempotent(seq@);
                }
                let (token, rest) = split_token(text);
                Ok((Param::Middle(token), rest))
            }
        },
    }
}

/// The parameters read so far, followed by those that the rest of the
/// parameter text gives.
spec fn params_then(read: Seq<Seq<char>>, rest: Option<Seq<char>>) -> Result<
    Seq<Seq<char>>,
    ErrorKind,
> {
    match param_list(rest) {
        Err(e) => Err(e),
        Ok(ps) => Ok(read + ps),
    }
}

/// Decodes one line, without its line terminator, into a message.
///
/// The parts of the message borrow from `line`. What a line decodes to, and
/// the error for a line that does not follow the grammar, is what
/// [`decode`] says of its characters.
pub fn parse_line<'a>(line: &'a str) -> (r: Result<Message<'a>, MessageParsingError>)
    ensures
        message_result(r) == decode(line@),
{
    let mut message = Message::new();
    let (raw_token, current) = consume_from_left(line);
    match identify_token(raw_token, true) {
        Ok(Token::Tags(tags)) => {
            message.tags = Some(tags);
        },
        Ok(Token::Prefix(prefix)) => {
            message.prefix = Some(prefix);
        },
        Ok(Token::Command(_)) => {
            return Err(MessageParsingError::new(ErrorKind::ExpectedTagsOrPrefix));
        },
        Err(error) => {
            return Err(error);
        },
    }
    let after_first = match current {
        None => {
            return Err(MessageParsingError::new(ErrorKind::UnexpectedEndOfMessage));
        },
        Some(text) => text,
    };
    let (raw_token, mut current) = consume_from_left(after_first);
    match identify_token(raw_token, false) {
        Ok(Token::Tags(_)) => {
            return Err(MessageParsingError::new(ErrorKind::MisplacedTags));
        },
        Ok(Token::Prefix(prefix)) => {
            message.prefix = Some(prefix);
            match current {
                None => {
                    return Ok(message);
                },
                Some(after_prefix) => {
                    let (command, params) = consume_from_left(after_prefix);
                    message.command = command;
                    current = params;
                },
            }
        },
        Ok(Token::Command(command)) => {
            message.command = Some(command);
        },
        Err(error) => {
            return Err(error);
        },
    }
    let ghost head = message@;
    let ghost params = current.deep_view();
    assert(decode(line@) == with_params(head, params));
    assert(param_list(params) == params_then(message@.params, params)) by {
        if let Ok(ps) = param_list(params) {
            assert(message@.params + ps =~= ps);
        }
    }
    while current.is_some()
        invariant
            decode(line@) == with_params(head, params),
            params_then(message@.params, current.deep_view()) == param_list(params),
            message@ == (MessageView { params: message@.params, ..head }),
        decreases text_left(current.deep_view()),
    {
        let ghost read = message@.params;
        let ghost text = current.deep_view();
        proof {
            lemma_token_shape(text.unwrap());
        }
        match consume_params(current) {
            Ok((Param::Middle(param), rest)) => {
                message.add_param(param);
                current = rest;
                proof {
                    if let Ok(ps) = param_list(rest.deep_view()) {
                        assert(read.push(param@) + ps =~= read + (seq![param@] + ps));
                    }
                }
            },
            Ok((Param::Trailing(param), _)) => {
                message.add_param(param);
                current = None;
                proof {
                    assert(read.push(param@) + Seq::<Seq<char>>::empty() =~= read + seq![param@]);
                }
            },
            Err(error) => {
                return Err(error);
            },
        }
    }
    proof {
        assert(message@.params + Seq::<Seq<char>>::empty() =~= message@.params);
    }
    Ok(message)
}

} // verus!

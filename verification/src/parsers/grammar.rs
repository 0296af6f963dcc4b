//! The grammar of one protocol line, written as functions on `Seq<char>`.
//!
//! A line is a run of tokens separated by spaces. The first one or two tokens
//! may be a tag block (`@...`) and a prefix (`:...`), then comes the command
//! and after it the parameters. A parameter that starts with `:` is the
//! trailing one: it runs to the end of the line, spaces included.

use crate::parsers::error::ErrorKind;
use vstd::prelude::*;

verus! {

/// What a token at the head of a line is taken for.
pub enum TokenView {
    /// A tag block, without its `@`.
    Tags(Seq<char>),
    /// A prefix, without its `:`.
    Prefix(Seq<char>),
    /// A command.
    Command(Seq<char>),
}

/// One parameter of a message.
pub enum ParamView {
    /// A parameter of one token.
    Middle(Seq<char>),
    /// The last parameter, without its `:`; it may hold spaces.
    Trailing(Seq<char>),
}

/// A decoded message.
pub struct MessageView {
    /// The tag block, without its `@`.
    pub tags: Option<Seq<char>>,
    /// The prefix, without its `:`.
    pub prefix: Option<Seq<char>>,
    /// The command.
    pub command: Option<Seq<char>>,
    /// The parameters, in the order of the line.
    pub params: Seq<Seq<char>>,
}

/// The number of spaces `s` starts with.
pub open spec fn leading_spaces(s: Seq<char>) -> nat
    decreases s.len(),
{
    if s.len() > 0 && s[0] == ' ' {
        1 + leading_spaces(s.drop_first())
    } else {
        0
    }
}

/// The number of characters other than a space `s` starts with.
pub open spec fn word_len(s: Seq<char>) -> nat
    decreases s.len(),
{
    if s.len() > 0 && s[0] != ' ' {
        1 + word_len(s.drop_first())
    } else {
        0
    }
}

/// `s` without the spaces it starts with.
pub open spec fn trim_start(s: Seq<char>) -> Seq<char> {
    s.skip(leading_spaces(s) as int)
}

/// The first token of `s`: the characters from the first one that is not a
/// space up to the next space or the end. `None` when `s` holds only spaces.
pub open spec fn next_token(s: Seq<char>) -> Option<Seq<char>> {
    let t = trim_start(s);
    if t.len() == 0 {
        None
    } else {
        Some(t.take(word_len(t) as int))
    }
}

/// What follows the first token of `s`, starting at the space that ends the
/// token. `None` when nothing follows it, or when there is no token.
pub open spec fn rest_after_token(s: Seq<char>) -> Option<Seq<char>> {
    let t = trim_start(s);
    let r = t.skip(word_len(t) as int);
    if r.len() == 0 {
        None
    } else {
        Some(r)
    }
}

/// `leading_spaces(s)` is the index of the first character that is not a space.
pub proof fn lemma_leading_spaces(s: Seq<char>)
    ensures
        leading_spaces(s) <= s.len(),
        forall|k: int| 0 <= k < leading_spaces(s) ==> s[k] == ' ',
        leading_spaces(s) < s.len() ==> s[leading_spaces(s) as int] != ' ',
    decreases s.len(),
{
    if s.len() > 0 && s[0] == ' ' {
        let tail = s.drop_first();
        lemma_leading_spaces(tail);
        assert forall|k: int| 0 <= k < leading_spaces(s) implies s[k] == ' ' by {
            if k > 0 {
                assert(s[k] == tail[k - 1]);
            }
        }
        if leading_spaces(s) < s.len() {
            assert(s[leading_spaces(s) as int] == tail[leading_spaces(tail) as int]);
        }
    }
}

/// `word_len(s)` is the index of the first space.
pub proof fn lemma_word_len(s: Seq<char>)
    ensures
        word_len(s) <= s.len(),
        forall|k: int| 0 <= k < word_len(s) ==> s[k] != ' ',
        word_len(s) < s.len() ==> s[word_len(s) as int] == ' ',
    decreases s.len(),
{
    if s.len() > 0 && s[0] != ' ' {
        let tail = s.drop_first();
        lemma_word_len(tail);
        assert forall|k: int| 0 <= k < word_len(s) implies s[k] != ' ' by {
            if k > 0 {
                assert(s[k] == tail[k - 1]);
            }
        }
        if word_len(s) < s.len() {
            assert(s[word_len(s) as int] == tail[word_len(tail) as int]);
        }
    }
}

/// An index with only spaces before it and no space at it is `leading_spaces(s)`.
pub proof fn lemma_leading_spaces_unique(s: Seq<char>, n: nat)
    requires
        n <= s.len(),
        forall|k: int| 0 <= k < n ==> s[k] == ' ',
        n < s.len() ==> s[n as int] != ' ',
    ensures
        leading_spaces(s) == n,
    decreases n,
{
    if n > 0 {
        let tail = s.drop_first();
        assert(s[0] == ' ');
        assert forall|k: int| 0 <= k < n - 1 implies tail[k] == ' ' by {
            assert(tail[k] == s[k + 1]);
        }
        lemma_leading_spaces_unique(tail, (n - 1) as nat);
    }
}

/// An index with no space before it and a space at it is `word_len(s)`.
pub proof fn lemma_word_len_unique(s: Seq<char>, n: nat)
    requires
        n <= s.len(),
        forall|k: int| 0 <= k < n ==> s[k] != ' ',
        n < s.len() ==> s[n as int] == ' ',
    ensures
        word_len(s) == n,
    decreases n,
{
    if n > 0 {
        let tail = s.drop_first();
        assert(s[0] != ' ');
        assert forall|k: int| 0 <= k < n - 1 implies tail[k] != ' ' by {
            assert(tail[k] == s[k + 1]);
        }
        lemma_word_len_unique(tail, (n - 1) as nat);
    }
}

/// A token is never empty and holds no space, and the text after it is
/// shorter than the input and starts with a space.
pub proof fn lemma_token_shape(s: Seq<char>)
    ensures
        next_token(s) matches Some(t) ==> t.len() > 0 && forall|k: int|
            0 <= k < t.len() ==> t[k] != ' ',
        rest_after_token(s) matches Some(r) ==> r.len() < s.len() && r[0] == ' ',
        next_token(s) is None ==> rest_after_token(s) is None,
        next_token(s) is None <==> forall|k: int| 0 <= k < s.len() ==> s[k] == ' ',
{
    lemma_leading_spaces(s);
    let t = trim_start(s);
    lemma_word_len(t);
    if t.len() > 0 {
        assert(t[0] == s[leading_spaces(s) as int]);
        assert(word_len(t) > 0);
    }
}

/// Splitting a text into leading spaces, a word without spaces and a rest
/// that is empty or starts with a space gives its first token and what
/// follows it.
pub proof fn lemma_token_split(blank: Seq<char>, token: Seq<char>, rest: Seq<char>)
    requires
        forall|k: int| 0 <= k < blank.len() ==> blank[k] == ' ',
        token.len() > 0,
        forall|k: int| 0 <= k < token.len() ==> token[k] != ' ',
        rest.len() > 0 ==> rest[0] == ' ',
    ensures
        next_token(blank + token + rest) == Some(token),
        rest_after_token(blank + token + rest) == if rest.len() == 0 {
            None
        } else {
            Some(rest)
        },
{
    let s = blank + token + rest;
    assert(s[blank.len() as int] == token[0]);
    lemma_leading_spaces_unique(s, blank.len());
    let t = trim_start(s);
    assert(t =~= token + rest);
    if rest.len() > 0 {
        assert(t[token.len() as int] == rest[0]);
    }
    lemma_word_len_unique(t, token.len());
    assert(t.take(token.len() as int) =~= token);
    assert(t.skip(token.len() as int) =~= rest);
}

/// Trimming a trimmed text changes nothing, so the first token of a text
/// and what follows it can be read from the trimmed text.
pub proof fn lemma_trim_start_idempotent(s: Seq<char>)
    ensures
        trim_start(trim_start(s)) == trim_start(s),
        next_token(trim_start(s)) == next_token(s),
        rest_after_token(trim_start(s)) == rest_after_token(s),
{
    lemma_leading_spaces(s);
    let t = trim_start(s);
    if t.len() > 0 {
        assert(t[0] == s[leading_spaces(s) as int]);
    }
    lemma_leading_spaces_unique(t, 0);
    assert(t.skip(0) =~= t);
}

/// What `token` is taken for when it stands first in the line (`first`) or
/// second.
///
/// Tags may only come first, a prefix may come first or second, and a
/// command only second: the first token of a line is never its command.
pub open spec fn classify(token: Option<Seq<char>>, first: bool) -> Result<TokenView, ErrorKind> {
    match token {
        None => Err(ErrorKind::MissingToken),
        Some(t) => {
            if t.len() > 0 && t[0] == '@' {
                if first {
                    Ok(TokenView::Tags(t.skip(1)))
                } else {
                    Err(ErrorKind::MisplacedTags)
                }
            } else if t.len() > 0 && t[0] == ':' {
                Ok(TokenView::Prefix(t.skip(1)))
            } else if first {
                Err(ErrorKind::ExpectedTagsOrPrefix)
            } else {
                Ok(TokenView::Command(t))
            }
        },
    }
}

/// The next parameter of the parameter text `input`, with the text left after it.
///
/// After the spaces that `input` starts with, a `:` opens the trailing
/// parameter, which takes all that follows the `:`. Anything else is a middle
/// parameter of one token. There is no parameter where no text is given, or
/// only spaces.
pub open spec fn next_param(input: Option<Seq<char>>) -> Result<
    (ParamView, Option<Seq<char>>),
    ErrorKind,
> {
    match input {
        None => Err(ErrorKind::MissingParameterData),
        Some(s) => {
            let t = trim_start(s);
            if t.len() == 0 {
                Err(ErrorKind::MissingParameterData)
            } else if t[0] == ':' {
                Ok((ParamView::Trailing(t.skip(1)), None))
            } else {
                Ok((ParamView::Middle(t.take(word_len(t) as int)), rest_after_token(s)))
            }
        },
    }
}

/// The length of the parameter text that is left, counted so that no text
/// at all is less than an empty one.
pub open spec fn text_left(rest: Option<Seq<char>>) -> nat {
    match rest {
        None => 0,
        Some(s) => s.len() + 1,
    }
}

/// All the parameters in the parameter text `rest`.
///
/// Middle parameters are read one after the other until the text ends or a
/// trailing parameter is read.
pub open spec fn param_list(rest: Option<Seq<char>>) -> Result<Seq<Seq<char>>, ErrorKind>
    decreases text_left(rest),
    via param_list_terminates
{
    match rest {
        None => Ok(Seq::empty()),
        Some(s) => match next_param(Some(s)) {
            Err(e) => Err(e),
            Ok((ParamView::Trailing(p), _)) => Ok(seq![p]),
            Ok((ParamView::Middle(p), after)) => match param_list(after) {
                Err(e) => Err(e),
                Ok(ps) => Ok(seq![p] + ps),
            },
        },
    }
}

#[via_fn]
proof fn param_list_terminates(rest: Option<Seq<char>>) {
    if let Some(s) = rest {
        lemma_token_shape(s);
    }
}

/// The tag block that a first token gives.
pub open spec fn tags_of(first: TokenView) -> Option<Seq<char>> {
    match first {
        TokenView::Tags(t) => Some(t),
        _ => None,
    }
}

/// The prefix that a token gives.
pub open spec fn prefix_of(token: TokenView) -> Option<Seq<char>> {
    match token {
        TokenView::Prefix(p) => Some(p),
        _ => None,
    }
}

/// The message with head `head` and the parameters in `rest`.
pub open spec fn with_params(head: MessageView, rest: Option<Seq<char>>) -> Result<
    MessageView,
    ErrorKind,
> {
    match param_list(rest) {
        Err(e) => Err(e),
        Ok(ps) => Ok(MessageView { params: ps, ..head }),
    }
}

/// The message that `line` decodes to, or the reason why it does not decode.
///
/// The first token must be a tag block or a prefix, and something must
/// follow it. If the second token is a prefix as well, it replaces the
/// first and the command is the token after it, whatever it starts with; a
/// line that ends there has no command and no parameters. Otherwise the
/// second token is the command. The parameters follow the command.
pub open spec fn decode(line: Seq<char>) -> Result<MessageView, ErrorKind> {
    match classify(next_token(line), true) {
        Err(e) => Err(e),
        Ok(first) => match rest_after_token(line) {
            None => Err(ErrorKind::UnexpectedEndOfMessage),
            Some(after_first) => match classify(next_token(after_first), false) {
                Err(e) => Err(e),
                Ok(TokenView::Prefix(p)) => {
                    let head = MessageView {
                        tags: tags_of(first),
                        prefix: Some(p),
                        command: None,
                        params: Seq::empty(),
                    };
                    match rest_after_token(after_first) {
                        None => Ok(head),
                        Some(after_prefix) => with_params(
                            MessageView { command: next_token(after_prefix), ..head },
                            rest_after_token(after_prefix),
                        ),
                    }
                },
                Ok(TokenView::Command(c)) => with_params(
                    MessageView {
                        tags: tags_of(first),
                        prefix: prefix_of(first),
                        command: Some(c),
                        params: Seq::empty(),
                    },
                    rest_after_token(after_first),
                ),
                Ok(TokenView::Tags(_)) => Err(ErrorKind::MisplacedTags),
            },
        },
    }
}

} // verus!

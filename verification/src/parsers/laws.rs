//! Laws of the grammar: what holds of every line and every parameter text.
//!
//! Each law is stated over the functions of [`crate::parsers::grammar`], which
//! are what the contracts of the parser speak of, so each law holds of what the
//! parser returns.

use crate::parsers::error::ErrorKind;
use crate::parsers::grammar::{
    classify, decode, leading_spaces, lemma_leading_spaces, lemma_leading_spaces_unique,
    lemma_token_shape, lemma_word_len, next_param, next_token, param_list, rest_after_token,
    text_left, trim_start, MessageView, ParamView,
};
use vstd::prelude::*;

verus! {

/// `t` starts with the character `c`.
pub open spec fn starts_with(t: Seq<char>, c: char) -> bool {
    t.len() > 0 && t[0] == c
}

/// `s` holds no space.
pub open spec fn has_no_space(s: Seq<char>) -> bool {
    forall|k: int| 0 <= k < s.len() ==> s[k] != ' '
}

/// `s` holds nothing but spaces; the empty text does.
pub open spec fn is_blank(s: Seq<char>) -> bool {
    forall|k: int| 0 <= k < s.len() ==> s[k] == ' '
}

/// A line whose first token starts with neither `@` nor `:` is refused:
/// tags or a prefix were expected.
pub proof fn law_first_token_needs_sign(line: Seq<char>)
    requires
        next_token(line) is Some,
        !starts_with(next_token(line).unwrap(), '@'),
        !starts_with(next_token(line).unwrap(), ':'),
    ensures
        decode(line) == Err::<MessageView, ErrorKind>(ErrorKind::ExpectedTagsOrPrefix),
{
}

/// No other line is refused for that reason.
pub proof fn law_first_token_needs_sign_only(line: Seq<char>)
    requires
        decode(line) == Err::<MessageView, ErrorKind>(ErrorKind::ExpectedTagsOrPrefix),
    ensures
        next_token(line) is Some,
        !starts_with(next_token(line).unwrap(), '@'),
        !starts_with(next_token(line).unwrap(), ':'),
{
    lemma_param_list_errors(rest_after_token(line));
    if let Some(after_first) = rest_after_token(line) {
        lemma_param_list_errors(rest_after_token(after_first));
        if let Some(after_prefix) = rest_after_token(after_first) {
            lemma_param_list_errors(rest_after_token(after_prefix));
        }
    }
}

/// A line whose second token starts with `@`, after tags or a prefix, is
/// refused: tags may only stand first.
pub proof fn law_tags_only_first(line: Seq<char>)
    requires
        classify(next_token(line), true) is Ok,
        rest_after_token(line) is Some,
        next_token(rest_after_token(line).unwrap()) is Some,
        starts_with(next_token(rest_after_token(line).unwrap()).unwrap(), '@'),
    ensures
        decode(line) == Err::<MessageView, ErrorKind>(ErrorKind::MisplacedTags),
{
}

/// No other line is refused for that reason. In particular a token that
/// starts with `@` does no harm from the third place on.
pub proof fn law_tags_only_first_only(line: Seq<char>)
    requires
        decode(line) == Err::<MessageView, ErrorKind>(ErrorKind::MisplacedTags),
    ensures
        classify(next_token(line), true) is Ok,
        rest_after_token(line) is Some,
        next_token(rest_after_token(line).unwrap()) is Some,
        starts_with(next_token(rest_after_token(line).unwrap()).unwrap(), '@'),
{
    lemma_param_list_errors(rest_after_token(line));
    if let Some(after_first) = rest_after_token(line) {
        lemma_param_list_errors(rest_after_token(after_first));
        if let Some(after_prefix) = rest_after_token(after_first) {
            lemma_param_list_errors(rest_after_token(after_prefix));
        }
    }
}

/// An empty line, and a line of spaces only, has no token to read.
pub proof fn law_blank_line(line: Seq<char>)
    requires
        is_blank(line),
    ensures
        decode(line) == Err::<MessageView, ErrorKind>(ErrorKind::MissingToken),
{
    lemma_token_shape(line);
}

/// Tokenizing does not depend on the spaces before the token: a text that
/// was handed back with the space that ended the last token, or with a run of
/// them, gives the same token and the same rest as the text without them.
pub proof fn law_leading_spaces_do_not_matter(blank: Seq<char>, text: Seq<char>)
    requires
        is_blank(blank),
    ensures
        trim_start(blank + text) == trim_start(text),
        next_token(blank + text) == next_token(text),
        rest_after_token(blank + text) == rest_after_token(text),
{
    let s = blank + text;
    let n: nat = blank.len() + leading_spaces(text);
    lemma_leading_spaces(text);
    assert forall|k: int| 0 <= k < n implies s[k] == ' ' by {
        if k >= blank.len() {
            assert(s[k] == text[k - blank.len()]);
        }
    }
    if n < s.len() {
        assert(s[n as int] == text[leading_spaces(text) as int]);
    }
    lemma_leading_spaces_unique(s, n);
    assert(s.skip(n as int) =~= text.skip(leading_spaces(text) as int));
}

/// Reading parameters fails in one way only: text is left, and it holds
/// nothing but spaces.
pub proof fn lemma_param_list_errors(rest: Option<Seq<char>>)
    ensures
        param_list(rest) matches Err(e) ==> e == ErrorKind::MissingParameterData,
    decreases text_left(rest),
{
    if let Some(s) = rest {
        lemma_token_shape(s);
        if let Ok((ParamView::Middle(_), after)) = next_param(Some(s)) {
            lemma_param_list_errors(after);
        }
    }
}

/// A parameter that starts with `:` takes all the text after the `:`,
/// spaces included, and ends the parameters: it is the only one read from
/// its text.
pub proof fn law_trailing_ends_params(text: Seq<char>)
    requires
        starts_with(trim_start(text), ':'),
    ensures
        next_param(Some(text)) == Ok::<(ParamView, Option<Seq<char>>), ErrorKind>(
            (ParamView::Trailing(trim_start(text).skip(1)), None),
        ),
        param_list(Some(text)) == Ok::<Seq<Seq<char>>, ErrorKind>(seq![trim_start(text).skip(1)]),
{
}

/// Of the parameters read from a text, all but the last are single tokens:
/// not empty, without a space, and not starting with `:`. Only the last can
/// be a trailing parameter.
pub proof fn law_only_last_param_is_free_text(rest: Option<Seq<char>>, i: int)
    requires
        param_list(rest) is Ok,
        0 <= i < param_list(rest).unwrap().len() - 1,
    ensures
        param_list(rest).unwrap()[i].len() > 0,
        has_no_space(param_list(rest).unwrap()[i]),
        !starts_with(param_list(rest).unwrap()[i], ':'),
    decreases text_left(rest),
{
    let s = rest.unwrap();
    lemma_token_shape(s);
    lemma_leading_spaces(s);
    lemma_word_len(trim_start(s));
    match next_param(Some(s)) {
        Ok((ParamView::Middle(p), after)) => {
            let ps = param_list(after).unwrap();
            assert(param_list(rest).unwrap() == seq![p] + ps);
            if i > 0 {
                assert((seq![p] + ps)[i] == ps[i - 1]);
                law_only_last_param_is_free_text(after, i - 1);
            } else {
                assert((seq![p] + ps)[0] == p);
                assert(p[0] == trim_start(s)[0]);
            }
        },
        _ => {},
    }
}

/// A decoded message without a command has no parameters either.
pub proof fn law_params_need_command(line: Seq<char>)
    requires
        decode(line) is Ok,
        decode(line).unwrap().command is None,
    ensures
        decode(line).unwrap().params.len() == 0,
        decode(line).unwrap().prefix is Some,
{
    let after_first = rest_after_token(line).unwrap();
    if let Some(after_prefix) = rest_after_token(after_first) {
        lemma_token_shape(after_prefix);
    }
}

/// The tags of a decoded message are its line's first token and nothing
/// else; its prefix is the first token or the second.
pub proof fn law_tags_and_prefix_come_first(line: Seq<char>)
    requires
        decode(line) is Ok,
    ensures
        next_token(line) is Some,
        rest_after_token(line) is Some,
        decode(line).unwrap().tags matches Some(tags) ==> next_token(line) == Some(
            seq!['@'] + tags,
        ),
        decode(line).unwrap().tags is None ==> !starts_with(next_token(line).unwrap(), '@'),
        decode(line).unwrap().prefix matches Some(prefix) ==> (next_token(line) == Some(
            seq![':'] + prefix,
        ) || next_token(rest_after_token(line).unwrap()) == Some(seq![':'] + prefix)),
{
    let first = next_token(line).unwrap();
    assert(first =~= seq![first[0]] + first.skip(1));
    let after_first = rest_after_token(line).unwrap();
    if let Some(second) = next_token(after_first) {
        if second.len() > 0 {
            assert(second =~= seq![second[0]] + second.skip(1));
        }
    }
}

} // verus!

use ircv3::parsers::error::{ErrorKind, MessageParsingError};
use ircv3::parsers::message::{
    consume_from_left, consume_params, identify_token, parse_line, Message, Param, Token,
};

fn kind_of(line: &str) -> ErrorKind {
    match parse_line(line) {
        Ok(message) => panic!("{:?} decoded to {:?}", line, message),
        Err(error) => error.kind,
    }
}

fn decoded(line: &str) -> Message<'_> {
    match parse_line(line) {
        Ok(message) => message,
        Err(error) => panic!("{:?} failed with {:?}", line, error),
    }
}

#[test]
fn tokenizing_the_remainders_of_a_b_c() {
    let (token, remainder) = consume_from_left("a b c");
    assert_eq!(token, Some("a"));
    assert_eq!(remainder, Some(" b c"));

    let (token, remainder) = consume_from_left(remainder.unwrap());
    assert_eq!(token, Some("b"));
    assert_eq!(remainder, Some(" c"));

    let (token, remainder) = consume_from_left(remainder.unwrap());
    assert_eq!(token, Some("c"));
    assert_eq!(remainder, None);
}

#[test]
fn tokenizing_a_trimmed_text_gives_the_same_token() {
    assert_eq!(consume_from_left("   lo rem"), consume_from_left("lo rem"));
    assert_eq!(consume_from_left("   "), consume_from_left(""));
}

#[test]
fn tokens_are_parts_of_the_input() {
    let src = String::from("  hello world");
    let (token, remainder) = consume_from_left(&src);
    let token = token.unwrap();
    let remainder = remainder.unwrap();
    assert_eq!(token.as_ptr(), src[2..].as_ptr());
    assert_eq!(remainder.as_ptr(), src[7..].as_ptr());
}

#[test]
fn tokenizing_text_that_is_not_ascii() {
    let (token, remainder) = consume_from_left("  grüße wörld ✓");
    assert_eq!(token, Some("grüße"));
    assert_eq!(remainder, Some(" wörld ✓"));

    let (token, remainder) = consume_from_left(remainder.unwrap());
    assert_eq!(token, Some("wörld"));
    assert_eq!(remainder, Some(" ✓"));

    let (token, remainder) = consume_from_left(remainder.unwrap());
    assert_eq!(token, Some("✓"));
    assert_eq!(remainder, None);
}

#[test]
fn tokenizing_stops_at_spaces_only() {
    let (token, remainder) = consume_from_left("a\tb\u{a0}c d");
    assert_eq!(token, Some("a\tb\u{a0}c"));
    assert_eq!(remainder, Some(" d"));
}

#[test]
fn identify_missing_token() {
    let expected = Err(MessageParsingError::new(ErrorKind::MissingToken));
    assert_eq!(identify_token(None, true), expected);
    assert_eq!(identify_token(None, false), expected);
}

#[test]
fn identify_tags_in_second_place() {
    let result = identify_token(Some("@these=are;tags"), false);
    assert_eq!(result, Err(MessageParsingError::new(ErrorKind::MisplacedTags)));
}

#[test]
fn identify_command_in_first_place() {
    let result = identify_token(Some("COMMAND"), true);
    assert_eq!(result, Err(MessageParsingError::new(ErrorKind::ExpectedTagsOrPrefix)));
}

#[test]
fn identify_bare_signs() {
    assert_eq!(identify_token(Some("@"), true), Ok(Token::Tags("")));
    assert_eq!(identify_token(Some(":"), true), Ok(Token::Prefix("")));
    assert_eq!(identify_token(Some(":"), false), Ok(Token::Prefix("")));
}

#[test]
fn identify_empty_token() {
    assert_eq!(identify_token(Some(""), false), Ok(Token::Command("")));
    assert_eq!(
        identify_token(Some(""), true),
        Err(MessageParsingError::new(ErrorKind::ExpectedTagsOrPrefix))
    );
}

#[test]
fn identify_token_that_is_not_ascii() {
    assert_eq!(identify_token(Some("ünïcode"), false), Ok(Token::Command("ünïcode")));
    assert_eq!(identify_token(Some(":ünïcode"), false), Ok(Token::Prefix("ünïcode")));
    assert_eq!(identify_token(Some("@ünï=ç"), true), Ok(Token::Tags("ünï=ç")));
    assert_eq!(
        identify_token(Some("ünïcode"), true),
        Err(MessageParsingError::new(ErrorKind::ExpectedTagsOrPrefix))
    );
}

#[test]
fn consume_param_trailing_keeps_its_spaces() {
    let result = consume_params(Some(":hello world foo"));
    assert_eq!(result, Ok((Param::Trailing("hello world foo"), None)));
}

#[test]
fn consume_param_trailing_after_the_delimiter() {
    let result = consume_params(Some(" :hello world"));
    assert_eq!(result, Ok((Param::Trailing("hello world"), None)));

    let result = consume_params(Some("   :hello  world "));
    assert_eq!(result, Ok((Param::Trailing("hello  world "), None)));
}

#[test]
fn consume_param_trailing_may_be_empty() {
    assert_eq!(consume_params(Some(":")), Ok((Param::Trailing(""), None)));
    assert_eq!(consume_params(Some(" :")), Ok((Param::Trailing(""), None)));
}

#[test]
fn consume_param_middle_after_the_delimiter() {
    let result = consume_params(Some(" arg1 arg2"));
    assert_eq!(result, Ok((Param::Middle("arg1"), Some(" arg2"))));

    let result = consume_params(Some(" arg2"));
    assert_eq!(result, Ok((Param::Middle("arg2"), None)));
}

#[test]
fn consume_param_colon_inside_a_middle() {
    let result = consume_params(Some("a:b :c"));
    assert_eq!(result, Ok((Param::Middle("a:b"), Some(" :c"))));
}

#[test]
fn consume_param_without_data() {
    let expected = Err(MessageParsingError::new(ErrorKind::MissingParameterData));
    assert_eq!(consume_params(None), expected);
    assert_eq!(consume_params(Some("")), expected);
    assert_eq!(consume_params(Some("   ")), expected);
}

#[test]
fn decode_prefix_command_middle_and_trailing() {
    let message = decoded(":nick!user@host PRIVMSG #chan :hello world");
    assert_eq!(message.tags, None);
    assert_eq!(message.prefix, Some("nick!user@host"));
    assert_eq!(message.command, Some("PRIVMSG"));
    assert_eq!(message.params, vec!["#chan", "hello world"]);
}

#[test]
fn decode_tags_prefix_command_and_middles() {
    let message = decoded("@id=123 :nick COMMAND arg1 arg2");
    assert_eq!(message.tags, Some("id=123"));
    assert_eq!(message.prefix, Some("nick"));
    assert_eq!(message.command, Some("COMMAND"));
    assert_eq!(message.params, vec!["arg1", "arg2"]);
}

#[test]
fn decode_command_alone() {
    assert_eq!(kind_of("COMMAND"), ErrorKind::ExpectedTagsOrPrefix);
}

#[test]
fn decode_without_a_leading_sign() {
    assert_eq!(kind_of("PRIVMSG #chan :hello"), ErrorKind::ExpectedTagsOrPrefix);
    assert_eq!(kind_of("  PING"), ErrorKind::ExpectedTagsOrPrefix);
    assert_eq!(kind_of("001 nick :Welcome"), ErrorKind::ExpectedTagsOrPrefix);
    assert_eq!(kind_of("a@b :c"), ErrorKind::ExpectedTagsOrPrefix);
    assert_eq!(kind_of("ünï :c"), ErrorKind::ExpectedTagsOrPrefix);
}

#[test]
fn decode_tags_in_second_place() {
    assert_eq!(kind_of(":nick @id=123 COMMAND"), ErrorKind::MisplacedTags);
    assert_eq!(kind_of("@a=1 @id=123 COMMAND"), ErrorKind::MisplacedTags);
    assert_eq!(kind_of("@a=1   @"), ErrorKind::MisplacedTags);
}

#[test]
fn decode_at_sign_from_the_third_place_on() {
    let message = decoded(":nick COMMAND @id=123");
    assert_eq!(message.command, Some("COMMAND"));
    assert_eq!(message.params, vec!["@id=123"]);

    let message = decoded("@a=1 :nick @COMMAND x");
    assert_eq!(message.tags, Some("a=1"));
    assert_eq!(message.prefix, Some("nick"));
    assert_eq!(message.command, Some("@COMMAND"));
    assert_eq!(message.params, vec!["x"]);
}

#[test]
fn decode_empty_and_blank_lines() {
    assert_eq!(kind_of(""), ErrorKind::MissingToken);
    assert_eq!(kind_of(" "), ErrorKind::MissingToken);
    assert_eq!(kind_of("       "), ErrorKind::MissingToken);
}

#[test]
fn decode_blank_after_the_first_token() {
    assert_eq!(kind_of(":nick "), ErrorKind::MissingToken);
    assert_eq!(kind_of("@id=123    "), ErrorKind::MissingToken);
}

#[test]
fn decode_line_that_ends_after_its_first_token() {
    assert_eq!(kind_of(":nick"), ErrorKind::UnexpectedEndOfMessage);
    assert_eq!(kind_of("@id=123"), ErrorKind::UnexpectedEndOfMessage);
    assert_eq!(kind_of("   :nick"), ErrorKind::UnexpectedEndOfMessage);
}

#[test]
fn decode_spaces_after_the_last_parameter() {
    assert_eq!(kind_of(":nick COMMAND "), ErrorKind::MissingParameterData);
    assert_eq!(kind_of(":nick COMMAND arg1   "), ErrorKind::MissingParameterData);
    assert_eq!(kind_of("@a :nick COMMAND "), ErrorKind::MissingParameterData);
}

#[test]
fn decode_without_parameters() {
    let message = decoded(":nick COMMAND");
    assert_eq!(message.tags, None);
    assert_eq!(message.prefix, Some("nick"));
    assert_eq!(message.command, Some("COMMAND"));
    assert!(message.params.is_empty());

    let message = decoded("@id=123 COMMAND");
    assert_eq!(message.tags, Some("id=123"));
    assert_eq!(message.prefix, None);
    assert_eq!(message.command, Some("COMMAND"));
    assert!(message.params.is_empty());

    let message = decoded("@id=123 :nick COMMAND");
    assert_eq!(message.tags, Some("id=123"));
    assert_eq!(message.prefix, Some("nick"));
    assert_eq!(message.command, Some("COMMAND"));
    assert!(message.params.is_empty());
}

#[test]
fn decode_second_prefix_replaces_the_first() {
    let message = decoded(":first :second COMMAND arg");
    assert_eq!(message.tags, None);
    assert_eq!(message.prefix, Some("second"));
    assert_eq!(message.command, Some("COMMAND"));
    assert_eq!(message.params, vec!["arg"]);
}

#[test]
fn decode_line_that_ends_after_a_second_prefix() {
    let message = decoded("@id=123 :nick");
    assert_eq!(message.tags, Some("id=123"));
    assert_eq!(message.prefix, Some("nick"));
    assert_eq!(message.command, None);
    assert!(message.params.is_empty());

    let message = decoded(":first :second   ");
    assert_eq!(message.tags, None);
    assert_eq!(message.prefix, Some("second"));
    assert_eq!(message.command, None);
    assert!(message.params.is_empty());
}

#[test]
fn decode_trailing_ends_the_parameters() {
    let message = decoded(":nick PRIVMSG #chan :hello world foo");
    assert_eq!(message.params, vec!["#chan", "hello world foo"]);

    let message = decoded(":nick PRIVMSG :hello :world  foo ");
    assert_eq!(message.params, vec!["hello :world  foo "]);

    let message = decoded(":nick PRIVMSG #chan :");
    assert_eq!(message.params, vec!["#chan", ""]);
}

#[test]
fn decode_runs_of_spaces_between_tokens() {
    let message = decoded("  @id=123   :nick   COMMAND   arg1    arg2   :last  one");
    assert_eq!(message.tags, Some("id=123"));
    assert_eq!(message.prefix, Some("nick"));
    assert_eq!(message.command, Some("COMMAND"));
    assert_eq!(message.params, vec!["arg1", "arg2", "last  one"]);
}

#[test]
fn decode_only_the_last_parameter_holds_spaces() {
    let message = decoded(":nick COMMAND a b c d :e f g");
    let last = message.params.len() - 1;
    for param in &message.params[..last] {
        assert!(!param.is_empty());
        assert!(!param.contains(' '));
        assert!(!param.starts_with(':'));
    }
    assert_eq!(message.params[last], "e f g");
}

#[test]
fn decode_keeps_the_line_terminator() {
    let message = decoded(":nick PING\r\n");
    assert_eq!(message.command, Some("PING\r\n"));

    let message = decoded(":nick PRIVMSG #chan :hi\r\n");
    assert_eq!(message.params, vec!["#chan", "hi\r\n"]);
}

#[test]
fn decode_line_that_is_not_ascii() {
    let message = decoded("@ключ=значение :ник!user@хост PRIVMSG #канал :привет, мир ✓");
    assert_eq!(message.tags, Some("ключ=значение"));
    assert_eq!(message.prefix, Some("ник!user@хост"));
    assert_eq!(message.command, Some("PRIVMSG"));
    assert_eq!(message.params, vec!["#канал", "привет, мир ✓"]);
}

#[test]
fn decode_borrows_from_the_line() {
    let line = String::from("@id=123 :nick COMMAND arg :rest of it");
    let message = decoded(&line);
    assert_eq!(message.tags.unwrap().as_ptr(), line[1..].as_ptr());
    assert_eq!(message.prefix.unwrap().as_ptr(), line[9..].as_ptr());
    assert_eq!(message.command.unwrap().as_ptr(), line[14..].as_ptr());
    assert_eq!(message.params[0].as_ptr(), line[22..].as_ptr());
    assert_eq!(message.params[1].as_ptr(), line[27..].as_ptr());
}

#[test]
fn add_param_keeps_the_order() {
    let mut message = Message::new();
    message.add_param("param1");
    message.add_param("param2");
    assert_eq!(message.params, vec!["param1", "param2"]);
    assert_eq!(message.tags, None);
    assert_eq!(message.prefix, None);
    assert_eq!(message.command, None);
}

#[test]
fn error_descriptions() {
    assert_eq!(ErrorKind::MissingToken.description(), "");
    assert_eq!(
        ErrorKind::ExpectedTagsOrPrefix.description(),
        "expected message-tags or prefix"
    );
    assert_eq!(ErrorKind::MisplacedTags.description(), "message-tags are invalid here");
    assert_eq!(
        ErrorKind::UnexpectedEndOfMessage.description(),
        "unexpected end of message"
    );
    assert_eq!(
        ErrorKind::MissingParameterData.description(),
        "expected data, got nothing"
    );
    let error = MessageParsingError::new(ErrorKind::MisplacedTags);
    assert_eq!(error.kind, ErrorKind::MisplacedTags);
    assert_eq!(error.description(), "message-tags are invalid here");
}

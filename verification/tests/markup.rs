use get_threads::discord_structs::{Channel, GuildMember, GuildUser};
use get_threads::markup::{format_content, lex, render, Token};
use get_threads::net::{LawError, LawsClient, Lookup};

fn member(nick: Option<&str>, username: &str) -> Result<GuildMember, LawError> {
    Ok(GuildMember {
        nick: nick.map(|n| n.to_string()),
        user: GuildUser { username: username.to_string() },
    })
}

fn channel(name: &str) -> Result<Channel, LawError> {
    Ok(Channel { name: name.to_string() })
}

fn plain(text: &str) -> String {
    format_content(&LawsClient::new(), text).unwrap()
}

#[test]
fn bold_and_italic_spans() {
    assert_eq!(plain("**bold** and *italic*"), "<b>bold</b> and <i>italic</i>");
}

#[test]
fn unmatched_asterisk_leaves_tag_open() {
    assert_eq!(plain("a*"), "a<i>");
    assert_eq!(plain("**a"), "<b>a");
}

#[test]
fn three_asterisks_are_bold_then_italic() {
    assert_eq!(plain("***x***"), "<b><i>x</b></i>");
}

#[test]
fn formatting_starts_closed_in_each_message() {
    assert_eq!(plain("*a"), "<i>a");
    assert_eq!(plain("*b"), "<i>b");
}

#[test]
fn newline_becomes_break() {
    assert_eq!(plain("a\nb\n"), "a<br>b<br>");
}

#[test]
fn other_characters_pass_unchanged() {
    assert_eq!(plain("héllo → 世界 > x"), "héllo → 世界 > x");
    assert_eq!(plain(""), "");
}

#[test]
fn angle_bracket_takes_next_character_as_it_stands() {
    assert_eq!(plain("<x"), "<x");
    assert_eq!(plain("a <b> c"), "a <b> c");
    assert_eq!(plain("<*x*"), "<*x<i>");
    assert_eq!(plain("<\n"), "<\n");
    assert_eq!(plain("<<#1>"), "<<#1>");
}

#[test]
fn angle_bracket_at_end_is_kept() {
    assert_eq!(plain("a<"), "a<");
    assert_eq!(plain("<"), "<");
}

#[test]
fn channel_mention_embeds_resolved_name() {
    let mut client = LawsClient::new();
    let id = "123".to_string();
    let first = format_content(&client, "see <#123>!");
    assert!(matches!(first, Err(Lookup::Channel(ref c)) if c == "123"));
    client.record_channel(&id, channel("general"));
    assert_eq!(
        format_content(&client, "see <#123>!").unwrap(),
        "see <span class=\"ping\">#general</span>!"
    );
    assert_eq!(
        format_content(&client, "<#123><#123>").unwrap(),
        "<span class=\"ping\">#general</span><span class=\"ping\">#general</span>"
    );
}

#[test]
fn user_mention_embeds_resolved_name() {
    let mut client = LawsClient::new();
    client.record_member(&"42".to_string(), member(Some("Nick"), "user"));
    assert_eq!(
        format_content(&client, "<@42> and <@!42>").unwrap(),
        "<span class=\"ping\">@Nick</span> and <span class=\"ping\">@Nick</span>"
    );
}

#[test]
fn first_unresolved_mention_is_reported() {
    let mut client = LawsClient::new();
    client.record_member(&"1".to_string(), member(None, "one"));
    let r = format_content(&client, "<@1> <#7> <@2>");
    assert!(matches!(r, Err(Lookup::Channel(ref c)) if c == "7"));
    client.record_channel(&"7".to_string(), channel("seven"));
    let r = format_content(&client, "<@1> <#7> <@2>");
    assert!(matches!(r, Err(Lookup::Member(ref u)) if u == "2"));
    client.record_member(&"2".to_string(), member(None, "two"));
    assert_eq!(
        format_content(&client, "<@1> <#7> <@2>").unwrap(),
        "<span class=\"ping\">@one</span> <span class=\"ping\">#seven</span> <span class=\"ping\">@two</span>"
    );
}

#[test]
fn unterminated_mention_takes_the_rest() {
    let r = format_content(&LawsClient::new(), "x <#12 and more");
    assert!(matches!(r, Err(Lookup::Channel(ref c)) if c == "12 and more"));
    let r = format_content(&LawsClient::new(), "<@!");
    assert!(matches!(r, Err(Lookup::Member(ref u)) if u.is_empty()));
}

#[test]
fn mention_keeps_formatting_state() {
    let mut client = LawsClient::new();
    client.record_member(&"5".to_string(), member(None, "a*b"));
    assert_eq!(
        format_content(&client, "*<@5>*").unwrap(),
        "<i><span class=\"ping\">@a*b</span></i>"
    );
}

#[test]
fn lex_gives_tokens_in_order() {
    let toks = lex("**a*<#9>\n<@!3><y");
    assert_eq!(toks.len(), 8);
    assert!(matches!(toks[0], Token::Bold));
    assert!(matches!(toks[1], Token::Char('a')));
    assert!(matches!(toks[2], Token::Italic));
    assert!(matches!(toks[3], Token::Channel(ref c) if c == "9"));
    assert!(matches!(toks[4], Token::Break));
    assert!(matches!(toks[5], Token::User(ref u) if u == "3"));
    assert!(matches!(toks[6], Token::Char('<')));
    assert!(matches!(toks[7], Token::Char('y')));
}

#[test]
fn render_asks_again_after_lookup() {
    let toks = lex("hi <@8>");
    let mut client = LawsClient::new();
    assert!(matches!(render(&client, &toks), Err(Lookup::Member(ref u)) if u == "8"));
    client.record_member(&"8".to_string(), Err(LawError::EmptyPage));
    assert_eq!(
        render(&client, &toks).unwrap(),
        "hi <span class=\"ping\">@Deleted User</span>"
    );
}

use get_threads::discord_structs::{Author, GuildMember, GuildUser, Message};
use get_threads::net::{LawsClient, Lookup};
use get_threads::text::{chars_of, find, numeral, str_le};
use get_threads::votes::{get_messages, read_vote, vote_of, Ballots, Vote};

fn msg(author: &str, content: &str) -> Message {
    Message { content: content.to_string(), author: Author { id: author.to_string() } }
}

fn known(ids: &[(&str, &str)]) -> LawsClient {
    let mut client = LawsClient::new();
    for (id, name) in ids {
        client.record_member(
            &id.to_string(),
            Ok(GuildMember { nick: None, user: GuildUser { username: name.to_string() } }),
        );
    }
    client
}

#[test]
fn against_takes_precedence_over_for() {
    assert_eq!(read_vote("i am for it, not against"), Vote::Against);
    assert_eq!(read_vote("against, for sure"), Vote::Against);
    assert_eq!(vote_of("FOR and AGAINST"), Vote::Against);
}

#[test]
fn vote_is_read_whatever_the_case() {
    assert_eq!(vote_of("AGAINST"), Vote::Against);
    assert_eq!(vote_of("I vote For"), Vote::For);
    assert_eq!(vote_of("FoR"), Vote::For);
    assert_eq!(vote_of("abstain"), Vote::Neither);
    assert_eq!(vote_of(""), Vote::Neither);
}

#[test]
fn vote_in_lower_case_text_only() {
    assert_eq!(read_vote("for"), Vote::For);
    assert_eq!(read_vote("FOR"), Vote::Neither);
    assert_eq!(read_vote("AGAINST for"), Vote::For);
}

#[test]
fn vote_inside_a_longer_word_counts() {
    assert_eq!(vote_of("therefore"), Vote::For);
    assert_eq!(vote_of("information"), Vote::For);
    assert_eq!(vote_of("fo r"), Vote::Neither);
    assert_eq!(vote_of("agains"), Vote::Neither);
}

#[test]
fn latest_vote_of_an_author_wins() {
    let mut b = Ballots::new();
    let ann = "ann".to_string();
    b.cast(&ann, Vote::For);
    assert_eq!((b.count_for(), b.count_against()), (1, 0));
    b.cast(&ann, Vote::For);
    assert_eq!((b.count_for(), b.count_against()), (1, 0));
    b.cast(&ann, Vote::Against);
    assert_eq!((b.count_for(), b.count_against()), (0, 1));
    b.cast(&ann, Vote::Neither);
    assert_eq!((b.count_for(), b.count_against()), (0, 1));
    b.cast(&ann, Vote::For);
    assert_eq!((b.count_for(), b.count_against()), (1, 0));
    assert!(b.passed());
}

#[test]
fn tie_does_not_pass() {
    let mut b = Ballots::new();
    assert!(!b.passed());
    b.cast(&"a".to_string(), Vote::For);
    b.cast(&"b".to_string(), Vote::Against);
    assert!(!b.passed());
    b.cast(&"c".to_string(), Vote::For);
    assert!(b.passed());
}

#[test]
fn messages_are_read_oldest_first() {
    let client = known(&[("1", "Ann"), ("2", "Bob")]);
    // newest first, as the listing gives them
    let msgs = vec![msg("1", "against after all"), msg("2", "**for**"), msg("1", "for")];
    let (description, passed, votes) = get_messages(&client, &msgs).unwrap();
    assert_eq!(
        description,
        "<b>Ann:</b> for<br><b>Bob:</b> <b>for</b><br><b>Ann:</b> against after all<br>"
    );
    assert_eq!(votes, "1-for-1-against");
    assert!(!passed);
}

#[test]
fn earlier_votes_are_superseded_not_summed() {
    let client = known(&[("1", "Ann"), ("2", "Bob"), ("3", "Cy")]);
    let msgs = vec![
        msg("3", "for"),
        msg("1", "For."),
        msg("2", "no comment"),
        msg("2", "for"),
        msg("1", "against"),
        msg("1", "for"),
    ];
    let (_, passed, votes) = get_messages(&client, &msgs).unwrap();
    assert_eq!(votes, "3-for-0-against");
    assert!(passed);
}

#[test]
fn vote_is_read_from_the_text_not_from_names() {
    let client = known(&[("1", "Forrest"), ("9", "for")]);
    let (description, passed, votes) = get_messages(&client, &vec![msg("1", "hello <@9>")]).unwrap();
    assert_eq!(description, "<b>Forrest:</b> hello <span class=\"ping\">@for</span><br>");
    assert_eq!(votes, "0-for-0-against");
    assert!(!passed);
}

#[test]
fn no_messages_give_an_empty_transcript() {
    let (description, passed, votes) = get_messages(&LawsClient::new(), &Vec::new()).unwrap();
    assert_eq!(description, "");
    assert_eq!(votes, "0-for-0-against");
    assert!(!passed);
}

#[test]
fn names_are_asked_for_in_reading_order() {
    let mut client = LawsClient::new();
    let msgs = vec![msg("2", "second <@4>"), msg("1", "first <#3>")];
    let r = get_messages(&client, &msgs);
    assert!(matches!(r, Err(Lookup::Channel(ref c)) if c == "3"));
    client.record_channel(&"3".to_string(), Ok(get_threads::discord_structs::Channel { name: "c".to_string() }));
    assert!(matches!(get_messages(&client, &msgs), Err(Lookup::Member(ref u)) if u == "1"));
    client = {
        let mut c = known(&[("1", "A")]);
        c.record_channel(&"3".to_string(), Ok(get_threads::discord_structs::Channel { name: "c".to_string() }));
        c
    };
    assert!(matches!(get_messages(&client, &msgs), Err(Lookup::Member(ref u)) if u == "4"));
}

#[test]
fn numerals() {
    assert_eq!(numeral(0), "0");
    assert_eq!(numeral(7), "7");
    assert_eq!(numeral(10), "10");
    assert_eq!(numeral(12345), "12345");
    assert_eq!(numeral(9007199254740993), "9007199254740993");
}

#[test]
fn search_for_a_substring() {
    let hay = chars_of("straße for");
    assert!(find(&hay, &chars_of("for")));
    assert!(find(&hay, &chars_of("ße")));
    assert!(find(&hay, &chars_of("")));
    assert!(!find(&hay, &chars_of("fort")));
    assert!(!find(&chars_of("fo"), &chars_of("for")));
    assert_eq!(hay.len(), 10);
}

#[test]
fn strings_are_ordered_as_str_orders_them() {
    assert!(str_le("a", "b"));
    assert!(!str_le("b", "a"));
    assert!(str_le("a", "a"));
    assert!(str_le("", "a"));
    assert!(str_le("ab", "abc"));
    assert!(!str_le("abc", "ab"));
    assert!(str_le("z", "é"));
    assert_eq!(str_le("2021-11-20T09", "2021-11-20T10"), "2021-11-20T09" <= "2021-11-20T10");
}

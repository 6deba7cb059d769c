use get_threads::discord_structs::{
    Author, GuildMember, GuildUser, LawData, LawInfo, Message, Thread, ThreadMetadata,
};
use get_threads::net::{LawError, LawsClient, Lookup};
use get_threads::reconcile::{
    find_law, generated_on, needs_messages, status, update_info, Need, Reconciler,
};

const CONSTITUTION: &str = "907661773925126164";

fn thread(id: &str, watermark: &str, archived: bool, parent: &str) -> Thread {
    Thread {
        id: id.to_string(),
        name: format!("name of {}", id),
        last_message_id: watermark.to_string(),
        thread_metadata: ThreadMetadata {
            archived,
            archive_timestamp: "2021-11-22T10:00:00.000000+00:00".to_string(),
        },
        parent_id: parent.to_string(),
    }
}

fn law(id: &str, watermark: &str, interpretation: &str) -> LawInfo {
    LawInfo {
        id: id.to_string(),
        last_message_id: watermark.to_string(),
        name: format!("old name of {}", id),
        votes: "1-for-0-against".to_string(),
        passed: true,
        status: "Passed".to_string(),
        constitution: false,
        interpretation: interpretation.to_string(),
        description: format!("old transcript of {}", id),
    }
}

fn digest(text: &str, passed: bool, votes: &str) -> Option<(String, bool, String)> {
    Some((text.to_string(), passed, votes.to_string()))
}

fn same(a: &LawInfo, b: &LawInfo) -> bool {
    a.id == b.id
        && a.last_message_id == b.last_message_id
        && a.name == b.name
        && a.votes == b.votes
        && a.passed == b.passed
        && a.status == b.status
        && a.constitution == b.constitution
        && a.interpretation == b.interpretation
        && a.description == b.description
}

fn ids(d: &LawData) -> Vec<String> {
    d.laws.iter().map(|l| l.id.clone()).collect()
}

#[test]
fn status_labels() {
    assert_eq!(status(true, true), "Passed");
    assert_eq!(status(true, false), "Not passed");
    assert_eq!(status(false, true), "Voting");
    assert_eq!(status(false, false), "Voting");
}

#[test]
fn new_record_is_put_between_existing_ones() {
    let prior = LawData {
        generated: "Mon  1 Nov".to_string(),
        laws: vec![law("A", "a1", "note on A"), law("B", "b1", "note on B")],
    };
    let mut r = Reconciler::new(prior, CONSTITUTION.to_string());
    assert!(r.update(thread("A", "a1", true, "p"), None).is_ok());
    let back = r.update(thread("C", "c1", true, "p"), None).unwrap_err();
    assert_eq!(back.id, "C");
    assert!(r.update(back, digest("transcript of C", false, "0-for-1-against")).is_ok());
    assert!(r.update(thread("B", "b2", false, "p"), digest("new B", true, "2-for-0-against")).is_ok());
    let d = r.finish("Tue  2 Nov".to_string());
    assert_eq!(d.generated, "Tue  2 Nov");
    assert_eq!(ids(&d), vec!["A", "C", "B"]);
    assert!(same(&d.laws[0], &law("A", "a1", "note on A")));
    let c = &d.laws[1];
    assert_eq!(c.interpretation, "");
    assert_eq!(c.last_message_id, "c1");
    assert_eq!(c.name, "name of C");
    assert_eq!(c.votes, "0-for-1-against");
    assert!(!c.passed);
    assert_eq!(c.status, "Not passed");
    assert!(!c.constitution);
    assert_eq!(c.description, "transcript of C");
    let b = &d.laws[2];
    assert_eq!(b.interpretation, "note on B");
    assert_eq!(b.last_message_id, "b2");
    assert_eq!(b.name, "name of B");
    assert_eq!(b.votes, "2-for-0-against");
    assert!(b.passed);
    assert_eq!(b.status, "Voting");
    assert_eq!(b.description, "new B");
}

#[test]
fn second_run_changes_nothing() {
    let threads = || {
        vec![
            thread("A", "a2", true, CONSTITUTION),
            thread("C", "c1", false, "p"),
            thread("B", "b1", true, "p"),
        ]
    };
    let prior = LawData {
        generated: String::new(),
        laws: vec![law("A", "a1", "kept"), law("B", "b1", "")],
    };
    let mut r = Reconciler::new(prior, CONSTITUTION.to_string());
    for t in threads() {
        if let Err(t) = r.update(t, None) {
            let text = format!("transcript of {}", t.id);
            assert!(r.update(t, digest(&text, true, "1-for-0-against")).is_ok());
        }
    }
    let once = r.finish("day".to_string());
    let copy = LawData {
        generated: once.generated.clone(),
        laws: once.laws.iter().map(|l| update_info(thread(&l.id, &l.last_message_id, true, "p"), Some(l), &String::new(), None).unwrap()).collect(),
    };
    let mut r = Reconciler::new(copy, CONSTITUTION.to_string());
    for t in threads() {
        assert!(!r.wants_messages(&t));
        assert!(r.update(t, digest("never used", false, "9-for-9-against")).is_ok());
    }
    let twice = r.finish("day".to_string());
    assert_eq!(twice.generated, once.generated);
    assert_eq!(twice.laws.len(), once.laws.len());
    for (a, b) in once.laws.iter().zip(twice.laws.iter()) {
        assert!(same(a, b));
    }
    assert_eq!(ids(&twice), vec!["A", "C", "B"]);
}

#[test]
fn new_records_keep_the_order_of_their_threads() {
    let mut r = Reconciler::new(LawData::default(), CONSTITUTION.to_string());
    for id in ["X", "Y", "Z"] {
        assert!(r.update(thread(id, "w", true, "p"), digest("t", false, "0-for-0-against")).is_ok());
    }
    assert_eq!(ids(&r.finish(String::new())), vec!["X", "Y", "Z"]);
}

#[test]
fn new_record_before_all_existing_ones() {
    let prior = LawData { generated: String::new(), laws: vec![law("A", "a", ""), law("B", "b", "")] };
    let mut r = Reconciler::new(prior, CONSTITUTION.to_string());
    assert!(r.update(thread("N", "n", true, "p"), digest("t", false, "v")).is_ok());
    assert!(r.update(thread("B", "b", true, "p"), None).is_ok());
    assert!(r.update(thread("M", "m", true, "p"), digest("t", false, "v")).is_ok());
    assert!(r.update(thread("A", "a", true, "p"), None).is_ok());
    assert!(r.update(thread("L", "l", true, "p"), digest("t", false, "v")).is_ok());
    assert_eq!(ids(&r.finish(String::new())), vec!["N", "A", "L", "B", "M"]);
}

#[test]
fn record_without_its_thread_stays() {
    let prior = LawData { generated: String::new(), laws: vec![law("A", "a", "x"), law("B", "b", "y")] };
    let mut r = Reconciler::new(prior, CONSTITUTION.to_string());
    assert!(r.update(thread("B", "b", true, "p"), None).is_ok());
    let d = r.finish(String::new());
    assert!(same(&d.laws[0], &law("A", "a", "x")));
    assert!(same(&d.laws[1], &law("B", "b", "y")));
}

#[test]
fn constitutional_threads_are_marked_when_new() {
    let mut r = Reconciler::new(LawData::default(), CONSTITUTION.to_string());
    assert!(r.update(thread("K", "k", true, CONSTITUTION), digest("t", true, "v")).is_ok());
    assert!(r.update(thread("P", "p", true, "907664196567703584"), digest("t", true, "v")).is_ok());
    let d = r.finish(String::new());
    assert!(d.laws[0].constitution);
    assert_eq!(d.laws[0].status, "Passed");
    assert!(!d.laws[1].constitution);
}

#[test]
fn messages_are_wanted_for_new_and_changed_threads() {
    let a = law("A", "a1", "");
    assert!(!needs_messages(&thread("A", "a1", true, "p"), Some(&a)));
    assert!(needs_messages(&thread("A", "a2", true, "p"), Some(&a)));
    assert!(needs_messages(&thread("A", "a1", true, "p"), None));
    let r = Reconciler::new(
        LawData { generated: String::new(), laws: vec![law("A", "a1", "")] },
        CONSTITUTION.to_string(),
    );
    assert!(!r.wants_messages(&thread("A", "a1", true, "p")));
    assert!(r.wants_messages(&thread("A", "a2", true, "p")));
    assert!(r.wants_messages(&thread("B", "a1", true, "p")));
}

#[test]
fn update_info_leaves_an_unchanged_record() {
    let a = law("A", "a1", "note");
    let c = CONSTITUTION.to_string();
    let kept = update_info(thread("A", "a1", false, CONSTITUTION), Some(&a), &c, digest("x", false, "v")).unwrap();
    assert!(same(&kept, &a));
    let kept = update_info(thread("A", "a1", false, CONSTITUTION), Some(&a), &c, None).unwrap();
    assert!(same(&kept, &a));
}

#[test]
fn update_info_refreshes_a_changed_record() {
    let a = law("A", "a1", "note");
    let c = CONSTITUTION.to_string();
    let back = update_info(thread("A", "a2", true, CONSTITUTION), Some(&a), &c, None).unwrap_err();
    assert_eq!(back.last_message_id, "a2");
    let new = update_info(back, Some(&a), &c, digest("fresh", false, "0-for-2-against")).unwrap();
    assert_eq!(new.id, "A");
    assert_eq!(new.last_message_id, "a2");
    assert_eq!(new.name, "name of A");
    assert_eq!(new.votes, "0-for-2-against");
    assert!(!new.passed);
    assert_eq!(new.status, "Not passed");
    assert!(!new.constitution);
    assert_eq!(new.interpretation, "note");
    assert_eq!(new.description, "fresh");
}

#[test]
fn update_info_creates_a_record() {
    let c = CONSTITUTION.to_string();
    assert!(update_info(thread("N", "n", true, "p"), None, &c, None).is_err());
    let new = update_info(thread("N", "n", false, CONSTITUTION), None, &c, digest("d", true, "1-for-0-against")).unwrap();
    assert_eq!(new.id, "N");
    assert_eq!(new.status, "Voting");
    assert!(new.passed);
    assert!(new.constitution);
    assert_eq!(new.interpretation, "");
}

#[test]
fn first_record_with_the_identifier_is_found() {
    let laws = vec![law("A", "1", ""), law("B", "2", ""), law("A", "3", "")];
    assert_eq!(find_law(&laws, &"A".to_string()), Some(0));
    assert_eq!(find_law(&laws, &"B".to_string()), Some(1));
    assert_eq!(find_law(&laws, &"C".to_string()), None);
    assert_eq!(find_law(&Vec::new(), &"A".to_string()), None);
}

#[test]
fn empty_document_is_the_default() {
    let d = LawData::default();
    assert_eq!(d.generated, "");
    assert!(d.laws.is_empty());
}

#[test]
fn day_is_written_with_weekday_and_month() {
    assert_eq!(generated_on(2021, 11, 3).unwrap(), "Wed  3 Nov");
    assert_eq!(generated_on(2021, 11, 22).unwrap(), "Mon 22 Nov");
    assert_eq!(generated_on(1970, 1, 1).unwrap(), "Thu  1 Jan");
    assert_eq!(generated_on(2024, 2, 29).unwrap(), "Thu 29 Feb");
}

#[test]
fn numbers_that_are_no_date_give_no_stamp() {
    assert!(generated_on(2021, 2, 30).is_none());
    assert!(generated_on(2023, 2, 29).is_none());
    assert!(generated_on(2021, 13, 1).is_none());
    assert!(generated_on(2021, 0, 1).is_none());
    assert!(generated_on(2021, 1, 0).is_none());
}

fn said(author: &str, content: &str) -> Message {
    Message { content: content.to_string(), author: Author { id: author.to_string() } }
}

#[test]
fn reconcile_asks_for_messages_then_for_names() {
    let prior = LawData { generated: String::new(), laws: vec![law("A", "a1", "note")] };
    let mut r = Reconciler::new(prior, CONSTITUTION.to_string());
    let mut client = LawsClient::new();

    // a record that has seen the last message needs nothing
    assert!(r.reconcile(&client, thread("A", "a1", true, "p"), None).is_ok());

    let t = match r.reconcile(&client, thread("N", "n1", true, "p"), None) {
        Err(Need::Messages(t)) => t,
        other => panic!("{:?}", other),
    };
    assert_eq!(t.id, "N");
    let msgs = vec![said("2", "AGAINST"), said("1", "I am for <@2>")];
    let t = match r.reconcile(&client, t, Some(&msgs)) {
        Err(Need::Name(t, Lookup::Member(id))) => {
            assert_eq!(id, "2");
            t
        }
        other => panic!("{:?}", other),
    };
    client.record_member(&"2".to_string(), Err(LawError::EmptyPage));
    let t = match r.reconcile(&client, t, Some(&msgs)) {
        Err(Need::Name(t, Lookup::Member(id))) => {
            assert_eq!(id, "1");
            t
        }
        other => panic!("{:?}", other),
    };
    client.record_member(
        &"1".to_string(),
        Ok(GuildMember { nick: Some("Ann".to_string()), user: GuildUser { username: "a".to_string() } }),
    );
    assert!(r.reconcile(&client, t, Some(&msgs)).is_ok());

    let d = r.finish(String::new());
    assert_eq!(ids(&d), vec!["A", "N"]);
    assert!(same(&d.laws[0], &law("A", "a1", "note")));
    let n = &d.laws[1];
    assert_eq!(
        n.description,
        "<b>Ann:</b> I am for <span class=\"ping\">@Deleted User</span><br><b>Deleted User:</b> AGAINST<br>"
    );
    assert_eq!(n.votes, "1-for-1-against");
    assert!(!n.passed);
    assert_eq!(n.status, "Not passed");
    assert_eq!(n.interpretation, "");
}

#[test]
fn reconcile_leaves_everything_while_something_is_missing() {
    let prior = LawData { generated: String::new(), laws: vec![law("A", "a1", "note")] };
    let mut r = Reconciler::new(prior, CONSTITUTION.to_string());
    let client = LawsClient::new();
    let msgs = vec![said("1", "for")];
    assert!(matches!(
        r.reconcile(&client, thread("A", "a2", true, "p"), None),
        Err(Need::Messages(_))
    ));
    assert!(matches!(
        r.reconcile(&client, thread("A", "a2", true, "p"), Some(&msgs)),
        Err(Need::Name(_, Lookup::Member(_)))
    ));
    assert!(r.wants_messages(&thread("A", "a2", true, "p")));
    let d = r.finish(String::new());
    assert_eq!(d.laws.len(), 1);
    assert!(same(&d.laws[0], &law("A", "a1", "note")));
}

//! The actor's sequential message loop: messages drain from the mailbox
//! strictly in arrival order, so a query enqueued after a refresh observes
//! the refreshed index.

use jetbrains_search_provider::actor::{
    RefreshOutcome, RefreshReport, SearchMessage, SearchProviderActor, SearchReply,
};
use jetbrains_search_provider::index::ProjectRecord;
use jetbrains_search_provider::mailbox::Mailbox;

fn bv(s: &str) -> Vec<u8> {
    s.as_bytes().to_vec()
}

fn rec(id: &str, name: &str, path: &str, last_used: u64) -> ProjectRecord {
    ProjectRecord { id: bv(id), name: bv(name), path: bv(path), last_used }
}

#[test]
fn query_after_refresh_sees_the_refreshed_index() {
    let mut actor = SearchProviderActor::new(bv("icon"));
    let mut mailbox: Mailbox<SearchMessage> = Mailbox::new();

    let records = vec![rec("p1", "Alpha", "/a", 100), rec("p2", "Beta", "/b", 200)];
    mailbox.try_enqueue(SearchMessage::Refresh(RefreshOutcome::Loaded(records)));
    mailbox.try_enqueue(SearchMessage::InitialSearch(Vec::new()));

    let mut replies = Vec::new();
    while let Some(msg) = mailbox.dequeue() {
        replies.push(actor.handle_message(false, msg));
    }

    assert_eq!(replies.len(), 2);
    assert_eq!(replies[0], SearchReply::Refreshed(RefreshReport::Replaced));
    assert_eq!(replies[1], SearchReply::Ids(vec![bv("p2"), bv("p1")]));
}

#[test]
fn queries_do_not_change_the_actor() {
    let mut actor = SearchProviderActor::new(bv("icon"));
    actor.handle_message(
        false,
        SearchMessage::Refresh(RefreshOutcome::Loaded(vec![rec("p1", "Alpha", "/a", 1)])),
    );
    let probe = SearchMessage::InitialSearch(vec![bv("alpha")]);
    let before = match actor.handle_message(false, probe) {
        SearchReply::Ids(ids) => ids,
        _ => panic!("an initial search answers with ids"),
    };
    actor.handle_message(false, SearchMessage::Metadata(vec![bv("p1")]));
    actor.handle_message(false, SearchMessage::Activate(bv("p1")));
    actor.handle_message(true, SearchMessage::Subsearch(vec![bv("p1")], vec![bv("a")]));
    let after = match actor.handle_message(false, SearchMessage::InitialSearch(vec![bv("alpha")])) {
        SearchReply::Ids(ids) => ids,
        _ => panic!("an initial search answers with ids"),
    };
    assert_eq!(before, after);
    assert_eq!(before, vec![bv("p1")]);
}

#[test]
fn failed_refresh_reports_and_keeps_serving() {
    let mut actor = SearchProviderActor::new(bv("icon"));
    actor.handle_message(
        false,
        SearchMessage::Refresh(RefreshOutcome::Loaded(vec![rec("p1", "Alpha", "/a", 1)])),
    );
    let reply = actor.handle_message(false, SearchMessage::Refresh(RefreshOutcome::ReadFailed));
    assert_eq!(reply, SearchReply::Refreshed(RefreshReport::KeptPrevious));
    let reply = actor.handle_message(false, SearchMessage::Activate(bv("p1")));
    assert_eq!(reply, SearchReply::Launch(Some(bv("/a"))));
}

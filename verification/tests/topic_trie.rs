use mesquitte_client::protocol::QualityOfService;
use mesquitte_client::topic_trie::{TopicManager, TopicStore};

type Handler = fn(&str, &[u8], QualityOfService);

fn handler1(_topic: &str, _payload: &[u8], _qos: QualityOfService) {
    println!("handler1");
}

fn handler2(_topic: &str, _payload: &[u8], _qos: QualityOfService) {
    println!("handler2");
}

fn handler3(_topic: &str, _payload: &[u8], _qos: QualityOfService) {
    println!("handler3");
}

#[test]
fn topic_trie_test_topic_manager() {
    let mut manager: TopicManager<Handler> = TopicManager::new();
    manager.add(("sport/football", handler1));
    manager.add(("sport/+/news", handler2));
    manager.add(("sport/#", handler3));
    manager.remove("sport/#");

    // Test matching topics
    let matched = manager.match_topic("sport/football/news");
    assert!(matched.len() == 1);

    // clear all subscriptions
    manager.clear();

    let matched = manager.match_topic("sport/football");
    assert!(matched.is_empty());
}

#[test]
fn tokenize_splits_on_every_slash() {
    let levels = TopicManager::<u8>::tokenize_topic("a/b//c/");
    assert_eq!(levels, vec!["a", "b", "", "c", ""]);
    let levels = TopicManager::<u8>::tokenize_topic("");
    assert_eq!(levels, vec![""]);
    let levels = TopicManager::<u8>::tokenize_topic("héllo/wörld");
    assert_eq!(levels, vec!["héllo", "wörld"]);
}

#[test]
fn exact_filter_matches_only_its_topic() {
    let mut m: TopicManager<u8> = TopicManager::new();
    m.add(("a/b", 1));
    assert_eq!(m.match_topic("a/b"), vec![1]);
    assert!(m.match_topic("a").is_empty());
    assert!(m.match_topic("a/b/c").is_empty());
    assert!(m.match_topic("a/c").is_empty());
}

#[test]
fn plus_matches_exactly_one_level() {
    let mut m: TopicManager<u8> = TopicManager::new();
    m.add(("a/+/c", 7));
    assert_eq!(m.match_topic("a/x/c"), vec![7]);
    assert_eq!(m.match_topic("a//c"), vec![7]);
    assert!(m.match_topic("a/c").is_empty());
    assert!(m.match_topic("a/x/y/c").is_empty());
}

#[test]
fn hash_matches_one_or_more_levels_but_not_zero() {
    let mut m: TopicManager<u8> = TopicManager::new();
    m.add(("sport/#", 3));
    assert_eq!(m.match_topic("sport/tennis"), vec![3]);
    assert_eq!(m.match_topic("sport/tennis/player1"), vec![3]);
    assert!(m.match_topic("sport").is_empty());
    assert!(m.match_topic("news/tennis").is_empty());
}

#[test]
fn match_order_is_exact_then_plus_then_hash() {
    let mut m: TopicManager<u8> = TopicManager::new();
    m.add(("a/#", 3));
    m.add(("a/+", 2));
    m.add(("a/b", 1));
    m.add(("a/b", 4));
    assert_eq!(m.match_topic("a/b"), vec![1, 4, 2, 3]);
}

#[test]
fn wildcard_topic_level_is_counted_by_both_routes() {
    let mut m: TopicManager<u8> = TopicManager::new();
    m.add(("a/+", 2));
    // the level "+" of the topic reaches the "+" child as itself and as a wildcard
    assert_eq!(m.match_topic("a/+"), vec![2, 2]);
}

#[test]
fn remove_reports_whether_the_node_existed() {
    let mut m: TopicManager<u8> = TopicManager::new();
    m.add(("a/b/c", 1));
    assert!(m.remove("a/b"));
    assert_eq!(m.match_topic("a/b/c"), vec![1]);
    assert!(!m.remove("a/x"));
    assert!(m.remove("a/b/c"));
    assert!(m.match_topic("a/b/c").is_empty());
    // the whole path was pruned
    assert!(!m.remove("a"));
}

#[test]
fn remove_after_clear_still_finds_the_nodes() {
    let mut m: TopicManager<u8> = TopicManager::new();
    m.add(("a/b", 1));
    m.clear();
    assert!(m.match_topic("a/b").is_empty());
    assert!(m.remove("a/b"));
    assert!(!m.remove("a"));
}

#[test]
fn remove_keeps_other_branches() {
    let mut m: TopicManager<u8> = TopicManager::new();
    m.add(("a/b", 1));
    m.add(("a/c", 2));
    assert!(m.remove("a/b"));
    assert_eq!(m.match_topic("a/c"), vec![2]);
    assert!(m.remove("a"));
    assert_eq!(m.match_topic("a/c"), vec![2]);
}

#[test]
fn empty_filter_levels_are_kept() {
    let mut m: TopicManager<u8> = TopicManager::new();
    m.add(("/a", 5));
    assert_eq!(m.match_topic("/a"), vec![5]);
    assert!(m.match_topic("a").is_empty());
}

#[test]
fn each_matching_addition_delivers_its_handler_once() {
    let mut m: TopicManager<u8> = TopicManager::new();
    m.add(("a/b", 1));
    m.add(("a/+", 1));
    m.add(("a/#", 2));
    m.add(("a/b", 1));
    m.add(("c", 3));
    let mut got = m.match_topic("a/b");
    got.sort();
    assert_eq!(got, vec![1, 1, 1, 2]);
}

#[test]
fn adding_extends_only_the_matching_topics() {
    let mut m: TopicManager<u8> = TopicManager::new();
    m.add(("x/y", 1));
    let before_xy = m.match_topic("x/y");
    let before_z = m.match_topic("z");
    m.add(("x/+", 5));
    let mut after_xy = m.match_topic("x/y");
    after_xy.sort();
    let mut expected = before_xy.clone();
    expected.push(5);
    expected.sort();
    assert_eq!(after_xy, expected);
    assert_eq!(m.match_topic("z"), before_z);
}

#[test]
fn removal_drops_exactly_the_removed_filter() {
    let mut m: TopicManager<u8> = TopicManager::new();
    m.add(("s", 1));
    m.add(("s/t", 2));
    m.add(("s/t/u", 3));
    m.add(("s/+", 4));
    assert!(m.remove("s/t"));
    assert_eq!(m.match_topic("s"), vec![1]);
    assert_eq!(m.match_topic("s/t"), vec![4]);
    assert_eq!(m.match_topic("s/t/u"), vec![3]);
}

#[test]
fn removal_reports_paths_of_added_filters() {
    let mut m: TopicManager<u8> = TopicManager::new();
    m.add(("p/q/r", 1));
    m.add(("p/z", 2));
    assert!(m.remove("p/q"));
    let mut m2: TopicManager<u8> = TopicManager::new();
    m2.add(("p/q/r", 1));
    assert!(!m2.remove("q"));
    assert!(!m2.remove("p/q/r/s"));
    assert!(m2.remove("p/q/r"));
}

#[test]
fn matches_follow_a_history_of_adds_and_removes() {
    let mut m: TopicManager<u8> = TopicManager::new();
    m.add(("h/+", 1));
    m.add(("h/i", 2));
    m.add(("h/+", 3));
    assert!(m.remove("h/+"));
    m.add(("h/#", 4));
    m.add(("h/+", 5));
    m.add(("h/i", 2));
    let mut got = m.match_topic("h/i");
    got.sort();
    assert_eq!(got, vec![2, 2, 4, 5]);
}

#[test]
fn the_manager_is_a_topic_store() {
    let mut m: TopicManager<u8> = TopicManager::new();
    let tokens = |t: &str| t.split('/').map(|s| s.to_string()).collect::<Vec<String>>();
    m.add_subscription(1, tokens("a/+"));
    m.add_subscription(2, tokens("a/b"));
    assert_eq!(m.get_match_subscriptions(tokens("a/b")), vec![2, 1]);
    assert!(m.remove_subscription(tokens("a/b")));
    assert!(!m.remove_subscription(tokens("z")));
    assert_eq!(m.get_match_subscriptions(tokens("a/b")), vec![1]);
    m.clear_subscriptions();
    assert!(m.get_match_subscriptions(tokens("a/b")).is_empty());
}

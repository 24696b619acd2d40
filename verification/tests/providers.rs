use twitch_pubsub::providers::{NoTokenProvider, StaticTokenProvider};
use twitch_pubsub::token_provider::{chunks_from, Chunk};
use twitch_pubsub::TokenProvider;

fn topics(names: &[&str]) -> Vec<String> {
    names.iter().map(|s| s.to_string()).collect()
}

#[test]
fn static_provider_gives_its_token_for_one_topic() {
    let p = StaticTokenProvider::new("secret".to_string());
    let t = p.provide_token(&"video-playback.xqc".to_string()).unwrap();
    assert_eq!(t, Some("secret".to_string()));
}

#[test]
fn static_provider_groups_all_topics_under_its_token() {
    let p = StaticTokenProvider::new("secret".to_string());
    let chunks = p.provide_many(topics(&["a.1", "b.2", "c.3"])).unwrap();
    assert_eq!(chunks.len(), 1);
    assert_eq!(chunks[0].0, topics(&["a.1", "b.2", "c.3"]));
    assert_eq!(chunks[0].1, Some("secret".to_string()));
}

#[test]
fn no_token_provider_gives_no_token() {
    let p = NoTokenProvider;
    assert_eq!(p.provide_token(&"a.1".to_string()).unwrap(), None);
    let chunks = p.provide_many(topics(&["a.1", "b.2"])).unwrap();
    assert_eq!(chunks, vec![(topics(&["a.1", "b.2"]), None)]);
}

#[derive(Debug)]
struct PerTopic;

impl TokenProvider for PerTopic {
    type Error = String;

    fn provide_token(&self, topic: &String) -> Result<Option<String>, Self::Error> {
        if topic.starts_with("bad") {
            Err(format!("no token for {topic}"))
        } else {
            Ok(Some(format!("token-{topic}")))
        }
    }
}

#[test]
fn default_provide_many_makes_one_group_per_topic() {
    let chunks: Vec<Chunk> = PerTopic.provide_many(topics(&["a.1", "b.2"])).unwrap();
    assert_eq!(
        chunks,
        vec![
            (topics(&["a.1"]), Some("token-a.1".to_string())),
            (topics(&["b.2"]), Some("token-b.2".to_string())),
        ]
    );
}

#[test]
fn default_provide_many_stops_at_the_first_error() {
    let r = PerTopic.provide_many(topics(&["a.1", "bad.2", "c.3"]));
    assert_eq!(r, Err("no token for bad.2".to_string()));
}

#[test]
fn default_provide_many_of_nothing_is_empty() {
    let chunks = PerTopic.provide_many(vec![]).unwrap();
    assert!(chunks.is_empty());
}

#[test]
fn chunks_from_gives_each_topic_its_token_or_the_first_error() {
    let ts = topics(&["a", "b"]);
    let ok = chunks_from::<u8>(ts.clone(), vec![Ok(Some("x".to_string())), Ok(None)]).unwrap();
    assert_eq!(ok, vec![(topics(&["a"]), Some("x".to_string())), (topics(&["b"]), None)]);
    let err = chunks_from::<u8>(ts.clone(), vec![Ok(None), Err(7)]);
    assert_eq!(err, Err(7));
    let first = chunks_from::<u8>(ts, vec![Err(3)]);
    assert_eq!(first, Err(3));
    assert_eq!(chunks_from::<u8>(Vec::new(), Vec::new()), Ok(Vec::new()));
}

#[derive(Debug, Default)]
struct Counting {
    asked: std::cell::RefCell<Vec<String>>,
}

impl TokenProvider for Counting {
    type Error = String;

    fn provide_token(&self, topic: &String) -> Result<Option<String>, Self::Error> {
        self.asked.borrow_mut().push(topic.clone());
        if topic.starts_with("bad") {
            Err(topic.clone())
        } else {
            Ok(None)
        }
    }
}

#[test]
fn default_provide_many_asks_in_order_and_no_further_than_the_first_error() {
    let p = Counting::default();
    assert_eq!(p.provide_many(topics(&["a", "bad.1", "c", "bad.2"])), Err("bad.1".to_string()));
    assert_eq!(*p.asked.borrow(), topics(&["a", "bad.1"]));
}

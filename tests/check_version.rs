use blightmud::event::Event;
use blightmud::net::check_version::{run, sort_descending, version_events, FetchVersionInformation};

struct FixedTags {
    tags: Vec<String>,
}

impl FetchVersionInformation for FixedTags {
    fn fetch(&self) -> Vec<String> {
        self.tags.clone()
    }
}

#[test]
fn test_check() {
    let fetcher = FixedTags {
        tags: vec!["v10.0.0".to_owned(), "v9.0.0".to_owned(), "v8.0.0".to_owned()],
    };
    let mut writer: Vec<Event> = Vec::new();
    run(&mut writer, "v1.0.0", &fetcher);
    let mut reader = writer.into_iter();
    assert_eq!(
        reader.next().unwrap(),
        Event::Info(
            "There is a newer version of Blightmud available. (current: v1.0.0, new: v10.0.0)"
                .to_string()
        )
    );
    assert_eq!(
        reader.next().unwrap(),
        Event::Info("Visit https://github.com/Blightmud/Blightmud/releases/tag/v10.0.0 to upgrade to latest version".to_string())
    );
}

#[test]
fn test_no_new_version() {
    let fetcher = FixedTags { tags: vec!["v1.0.0".to_owned(), "v0.9.9".to_owned()] };
    let mut writer: Vec<Event> = Vec::new();
    run(&mut writer, "v1.0.0", &fetcher);
    assert!(writer.is_empty());
}

#[test]
fn test_no_data() {
    let fetcher = FixedTags { tags: Vec::default() };
    let mut writer: Vec<Event> = Vec::new();
    run(&mut writer, "v1.0.0", &fetcher);
    assert!(writer.is_empty());
}

#[test]
fn run_keeps_earlier_events() {
    let fetcher = FixedTags { tags: vec!["v2.0.0".to_owned()] };
    let mut writer: Vec<Event> = vec![Event::Disconnect];
    run(&mut writer, "v1.0.0", &fetcher);
    assert_eq!(writer.len(), 3);
    assert_eq!(writer[0], Event::Disconnect);
}

#[test]
fn older_latest_tag_gives_nothing() {
    let events = version_events(&vec!["v0.1.0".to_owned()], "v1.0.0");
    assert!(events.is_empty());
}

#[test]
fn tags_sort_newest_first_lexicographically() {
    let tags = vec![
        "v1.0.0".to_owned(),
        "v3.1.0".to_owned(),
        "v2.0.0".to_owned(),
        "v3.1.0".to_owned(),
        "v3.0.9".to_owned(),
    ];
    assert_eq!(
        sort_descending(tags),
        vec!["v3.1.0", "v3.1.0", "v3.0.9", "v2.0.0", "v1.0.0"]
    );
    assert_eq!(sort_descending(vec!["v9.0.0".to_owned(), "v10.0.0".to_owned()]), vec!["v9.0.0", "v10.0.0"]);
    assert!(sort_descending(Vec::new()).is_empty());
}

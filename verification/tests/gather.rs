use chat_stats::{
    aggregate, is_countable_message, is_countable_segment, is_ready, AuthorTallies, Chat,
    ChatStatistics, ChatType, FrequencyMap, GatherError, Id, Message, MessageType, Person,
    TextEntity, TextEntityType, Token,
};

fn segment(kind: TextEntityType, text: &str) -> TextEntity {
    TextEntity { text_type: kind, text: String::from(text) }
}

fn message(id: u64, kind: MessageType, from: Option<&str>, segments: Vec<TextEntity>) -> Message {
    Message {
        id,
        message_type: kind,
        date: chrono::NaiveDateTime::default(),
        from: from.map(|name| Person(String::from(name))),
        text_entities: segments,
    }
}

fn plain(id: u64, from: &str, text: &str) -> Message {
    message(id, MessageType::Message, Some(from), vec![segment(TextEntityType::Plain, text)])
}

fn chat(messages: Vec<Message>) -> Chat {
    Chat { name: String::from("test"), chat_type: ChatType::PersonalChat, id: Id(7), messages }
}

fn entries(map: &FrequencyMap) -> Vec<(String, usize)> {
    let mut all = Vec::new();
    for i in 0..map.len() {
        all.push((map.token_at(i).0.clone(), map.count_at(i)));
    }
    all.sort();
    all
}

fn by_author(map: &AuthorTallies) -> Vec<(String, Vec<(String, usize)>)> {
    let mut all = Vec::new();
    for i in 0..map.len() {
        all.push((map.author_at(i).0.clone(), entries(map.tally_at(i))));
    }
    all.sort();
    all
}

fn pairs(items: &[(&str, usize)]) -> Vec<(String, usize)> {
    items.iter().map(|(text, count)| (String::from(*text), *count)).collect()
}

fn six_messages() -> Vec<Message> {
    vec![
        plain(1, "A", "one two"),
        plain(2, "B", "two three"),
        plain(3, "A", "three three"),
        plain(4, "C", "four one"),
        plain(5, "B", "five"),
        plain(6, "A", "six one two"),
    ]
}

#[test]
fn two_authors_one_worker() {
    let chat = chat(vec![
        plain(1, "A", "hello world"),
        plain(2, "A", "hello!"),
        plain(3, "B", "world"),
    ]);
    let stats = ChatStatistics::gather_with_workers(&chat, 1).unwrap();
    assert_eq!(entries(stats.tokens_map()), pairs(&[("hello", 2), ("world", 2)]));
    assert_eq!(
        by_author(stats.members_tokens_map()),
        vec![
            (String::from("A"), pairs(&[("hello", 2), ("world", 1)])),
            (String::from("B"), pairs(&[("world", 1)])),
        ]
    );
    assert_eq!(stats.num_tokens(), 2);
}

#[test]
fn worker_count_that_divides_the_messages_changes_nothing() {
    let chat = chat(six_messages());
    let expected = pairs(&[("five", 1), ("four", 1), ("one", 3), ("six", 1), ("three", 3), ("two", 3)]);
    for workers in [1, 2, 3, 6] {
        let stats = ChatStatistics::gather_with_workers(&chat, workers).unwrap();
        assert_eq!(entries(stats.tokens_map()), expected, "{} workers", workers);
        assert_eq!(stats.num_tokens(), 6);
        assert_eq!(
            by_author(stats.members_tokens_map()),
            vec![
                (String::from("A"), pairs(&[("one", 2), ("six", 1), ("three", 2), ("two", 2)])),
                (String::from("B"), pairs(&[("five", 1), ("three", 1), ("two", 1)])),
                (String::from("C"), pairs(&[("four", 1), ("one", 1)])),
            ],
            "{} workers",
            workers
        );
    }
}

#[test]
fn messages_left_over_are_not_counted() {
    let chat = chat(six_messages());
    let stats = ChatStatistics::gather_with_workers(&chat, 4).unwrap();
    assert_eq!(entries(stats.tokens_map()), pairs(&[("four", 1), ("one", 2), ("three", 3), ("two", 2)]));
    assert_eq!(stats.num_tokens(), 4);
    let stats = ChatStatistics::gather_with_workers(&chat, 5).unwrap();
    assert_eq!(entries(stats.tokens_map()), pairs(&[("five", 1), ("four", 1), ("one", 2), ("three", 3), ("two", 2)]));
    let mut seven = six_messages();
    seven.push(plain(7, "D", "seven"));
    let chat = self::chat(seven);
    let stats = ChatStatistics::gather_with_workers(&chat, 3).unwrap();
    assert_eq!(stats.tokens_map().get(&Token::from("seven")), None);
    assert!(stats.members_tokens_map().get(&Person(String::from("D"))).is_none());
    assert_eq!(stats.num_tokens(), 6);
}

#[test]
fn more_workers_than_messages_count_nothing() {
    let chat = chat(six_messages());
    let stats = ChatStatistics::gather_with_workers(&chat, 7).unwrap();
    assert_eq!(stats.num_tokens(), 0);
    assert_eq!(stats.tokens_map().len(), 0);
    assert_eq!(stats.members_tokens_map().len(), 0);
}

#[test]
fn no_worker_is_an_error() {
    let chat = chat(six_messages());
    assert_eq!(ChatStatistics::gather_with_workers(&chat, 0).unwrap_err(), GatherError::NoWorkers);
    assert!(ChatStatistics::can_gather(&chat, 0));
}

#[test]
fn empty_chat_has_empty_statistics() {
    let chat = chat(Vec::new());
    let stats = ChatStatistics::gather_with_workers(&chat, 3).unwrap();
    assert_eq!(stats.num_tokens(), 0);
    assert_eq!(stats.members_tokens_map().len(), 0);
}

#[test]
fn gather_uses_the_threads_of_the_pool() {
    let chat = chat(six_messages());
    let workers = rayon::current_num_threads();
    let stats = ChatStatistics::gather(&chat);
    let same = ChatStatistics::gather_with_workers(&chat, workers).unwrap();
    assert_eq!(entries(stats.tokens_map()), entries(same.tokens_map()));
    assert_eq!(by_author(stats.members_tokens_map()), by_author(same.members_tokens_map()));
    assert_eq!(stats.num_tokens(), same.num_tokens());
}

#[test]
fn gather_counts_with_at_least_one_worker() {
    assert!(rayon::current_num_threads() >= 1);
    let chat = chat(vec![plain(1, "A", "hello world"), plain(2, "B", "hello")]);
    let stats = ChatStatistics::gather(&chat);
    assert_eq!(stats.num_tokens(), stats.tokens_map().len());
    let workers = rayon::current_num_threads();
    let counted = workers * (2 / workers);
    let expected = match counted {
        2 => pairs(&[("hello", 2), ("world", 1)]),
        _ => Vec::new(),
    };
    assert_eq!(entries(stats.tokens_map()), expected);
}

#[test]
fn global_count_is_the_sum_over_the_authors() {
    let mut messages = six_messages();
    messages.push(plain(7, "C", "one 😀 two!"));
    messages.push(plain(8, "D", "(six)"));
    let chat = chat(messages);
    let stats = ChatStatistics::gather_with_workers(&chat, 2).unwrap();
    let global = stats.tokens_map();
    let authors = stats.members_tokens_map();
    for i in 0..global.len() {
        let token = global.token_at(i);
        let mut sum = 0;
        for a in 0..authors.len() {
            sum += authors.tally_at(a).get(token).unwrap_or(0);
        }
        assert_eq!(global.count_at(i), sum, "{:?}", token);
    }
    for a in 0..authors.len() {
        let tally = authors.tally_at(a);
        for i in 0..tally.len() {
            assert!(global.get(tally.token_at(i)).is_some());
        }
    }
}

#[test]
fn number_of_tokens_is_the_size_of_the_global_map() {
    for workers in [1, 2, 3, 4] {
        let stats = ChatStatistics::gather_with_workers(&chat(six_messages()), workers).unwrap();
        assert_eq!(stats.num_tokens(), stats.tokens_map().len());
    }
}

#[test]
fn service_messages_are_not_counted() {
    let chat = chat(vec![
        message(1, MessageType::Service, None, vec![segment(TextEntityType::Plain, "joined the chat")]),
        message(2, MessageType::Service, Some("A"), vec![segment(TextEntityType::Plain, "pinned")]),
    ]);
    assert!(ChatStatistics::can_gather(&chat, 1));
    let stats = ChatStatistics::gather_with_workers(&chat, 1).unwrap();
    assert_eq!(stats.num_tokens(), 0);
    assert_eq!(stats.tokens_map().len(), 0);
    assert_eq!(stats.members_tokens_map().len(), 0);
}

#[test]
fn phone_number_is_not_counted() {
    let chat = chat(vec![message(
        1,
        MessageType::Message,
        Some("A"),
        vec![segment(TextEntityType::Phone, "555 0100")],
    )]);
    let stats = ChatStatistics::gather_with_workers(&chat, 1).unwrap();
    assert_eq!(stats.num_tokens(), 0);
    assert_eq!(stats.members_tokens_map().len(), 0);
}

#[test]
fn only_segments_with_words_are_counted() {
    let chat = chat(vec![message(
        1,
        MessageType::Message,
        Some("A"),
        vec![
            segment(TextEntityType::Plain, "call "),
            segment(TextEntityType::Phone, "555 0100"),
            segment(TextEntityType::Bold, " now"),
            segment(TextEntityType::Mention, "@someone"),
            segment(TextEntityType::BotCommand, "/start"),
            segment(TextEntityType::Email, "me@example.org"),
            segment(TextEntityType::CustomEmoji, "party"),
            segment(TextEntityType::Link, "example.org"),
            segment(TextEntityType::MentionName, "Someone"),
        ],
    )]);
    let stats = ChatStatistics::gather_with_workers(&chat, 1).unwrap();
    assert_eq!(
        entries(stats.tokens_map()),
        pairs(&[("Someone", 1), ("call", 1), ("example", 1), ("now", 1), ("org", 1)])
    );
}

#[test]
fn author_who_said_no_word_has_no_map() {
    let chat = chat(vec![plain(1, "A", "😀 !"), plain(2, "B", "word")]);
    let stats = ChatStatistics::gather_with_workers(&chat, 1).unwrap();
    assert!(stats.members_tokens_map().get(&Person(String::from("A"))).is_none());
    assert_eq!(stats.members_tokens_map().len(), 1);
    assert_eq!(stats.num_tokens(), 1);
}

#[test]
fn message_without_author_cannot_be_counted() {
    let messages = vec![
        plain(1, "A", "one"),
        message(2, MessageType::Message, None, vec![segment(TextEntityType::Plain, "two")]),
    ];
    assert!(!is_ready(&messages));
    assert!(is_ready(&messages[..1]));
    let chat = chat(messages);
    assert!(!ChatStatistics::can_gather(&chat, 1));
    assert!(!ChatStatistics::can_gather(&chat, 2));
    assert!(ChatStatistics::can_gather(&chat, 3));
}

#[test]
fn message_without_author_in_the_tail_is_not_looked_at() {
    let mut messages = six_messages();
    messages.push(message(7, MessageType::Message, None, vec![segment(TextEntityType::Plain, "x")]));
    let chat = chat(messages);
    assert!(ChatStatistics::can_gather(&chat, 2));
    assert!(!ChatStatistics::can_gather(&chat, 7));
    let stats = ChatStatistics::gather_with_workers(&chat, 2).unwrap();
    assert_eq!(stats.num_tokens(), 6);
}

#[test]
fn aggregate_counts_one_run() {
    let messages = six_messages();
    let (global, authors) = aggregate(&messages[1..3]);
    assert_eq!(entries(&global), pairs(&[("three", 3), ("two", 1)]));
    assert_eq!(
        by_author(&authors),
        vec![
            (String::from("A"), pairs(&[("three", 2)])),
            (String::from("B"), pairs(&[("three", 1), ("two", 1)])),
        ]
    );
    let (global, authors) = aggregate(&messages[2..2]);
    assert_eq!(global.len(), 0);
    assert_eq!(authors.len(), 0);
}

#[test]
fn runs_counted_apart_and_merged_give_the_whole() {
    let messages = six_messages();
    let (mut global, mut authors) = aggregate(&messages[4..6]);
    let (more, more_authors) = aggregate(&messages[0..2]);
    global.merge(more);
    authors.merge(more_authors);
    let (more, more_authors) = aggregate(&messages[2..4]);
    global.merge(more);
    authors.merge(more_authors);
    let stats = ChatStatistics::assemble(global, authors);
    let whole = ChatStatistics::gather_with_workers(&chat(six_messages()), 1).unwrap();
    assert_eq!(entries(stats.tokens_map()), entries(whole.tokens_map()));
    assert_eq!(by_author(stats.members_tokens_map()), by_author(whole.members_tokens_map()));
    assert_eq!(stats.num_tokens(), 6);
}

#[test]
fn reduce_adds_up_what_the_workers_counted() {
    let messages = six_messages();
    let chunks = vec![aggregate(&messages[4..6]), aggregate(&messages[0..2]), aggregate(&messages[2..4])];
    let stats = ChatStatistics::reduce(chunks);
    let whole = ChatStatistics::gather_with_workers(&chat(six_messages()), 3).unwrap();
    assert_eq!(entries(stats.tokens_map()), entries(whole.tokens_map()));
    assert_eq!(by_author(stats.members_tokens_map()), by_author(whole.members_tokens_map()));
    assert_eq!(stats.num_tokens(), whole.num_tokens());
    assert_eq!(
        entries(stats.tokens_map()),
        pairs(&[("five", 1), ("four", 1), ("one", 3), ("six", 1), ("three", 3), ("two", 3)])
    );
}

#[test]
fn reduce_of_nothing_is_empty() {
    let stats = ChatStatistics::reduce(Vec::new());
    assert_eq!(stats.num_tokens(), 0);
    assert_eq!(stats.tokens_map().len(), 0);
    assert_eq!(stats.members_tokens_map().len(), 0);
}

#[test]
fn meta_kinds() {
    for kind in [
        TextEntityType::Phone,
        TextEntityType::BotCommand,
        TextEntityType::Email,
        TextEntityType::CustomEmoji,
        TextEntityType::Mention,
    ] {
        assert!(kind.is_meta(), "{:?}", kind);
    }
    for kind in [
        TextEntityType::Pre,
        TextEntityType::Bold,
        TextEntityType::Link,
        TextEntityType::Code,
        TextEntityType::Plain,
        TextEntityType::Italic,
        TextEntityType::Cashtag,
        TextEntityType::Spoiler,
        TextEntityType::Hashtag,
        TextEntityType::TextLink,
        TextEntityType::Underline,
        TextEntityType::MentionName,
        TextEntityType::Strikethrough,
    ] {
        assert!(!kind.is_meta(), "{:?}", kind);
    }
}

#[test]
fn countable_messages_and_segments() {
    assert!(is_countable_message(&plain(1, "A", "x")));
    assert!(!is_countable_message(&message(1, MessageType::Service, Some("A"), Vec::new())));
    assert!(is_countable_segment(&segment(TextEntityType::Plain, "x")));
    assert!(is_countable_segment(&segment(TextEntityType::Code, "x")));
    assert!(!is_countable_segment(&segment(TextEntityType::Phone, "x")));
}

#[test]
fn long_chat_is_gathered_the_same_by_any_number_of_workers() {
    let mut messages = Vec::new();
    for i in 0..2400u64 {
        let text = format!(
            "word{} common, shared{} (again) word{}! 😀 emoji🎉glued {}",
            i % 500,
            i % 7,
            (i + 1) % 500,
            i % 3
        );
        messages.push(plain(i, &format!("author{}", i % 40), &text));
    }
    let chat = chat(messages);
    let one = ChatStatistics::gather_with_workers(&chat, 1).unwrap();
    assert_eq!(one.tokens_map().get(&Token::from("common")), Some(2400));
    assert_eq!(one.tokens_map().get(&Token::from("again")), Some(2400));
    assert_eq!(one.tokens_map().get(&Token::from("emojiglued")), Some(2400));
    assert_eq!(one.tokens_map().get(&Token::from("shared0")), Some(343));
    assert_eq!(one.tokens_map().get(&Token::from("word17")), Some(10));
    assert_eq!(one.tokens_map().get(&Token::from("0")), Some(800));
    assert_eq!(one.tokens_map().get(&Token::from("😀")), None);
    assert_eq!(one.num_tokens(), 500 + 3 + 7 + 3);
    assert_eq!(one.members_tokens_map().len(), 40);
    for workers in [2, 3, 8, 24, 100] {
        let many = ChatStatistics::gather_with_workers(&chat, workers).unwrap();
        assert_eq!(entries(many.tokens_map()), entries(one.tokens_map()), "{} workers", workers);
        assert_eq!(
            by_author(many.members_tokens_map()),
            by_author(one.members_tokens_map()),
            "{} workers",
            workers
        );
        assert_eq!(many.num_tokens(), one.num_tokens());
    }
}

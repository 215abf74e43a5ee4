use chat_stats::{partition, AuthorTallies, ChunkRange, FrequencyMap, Person, Token};

fn token(text: &str) -> Token {
    Token::from(text)
}

fn person(name: &str) -> Person {
    Person(String::from(name))
}

fn entries(map: &FrequencyMap) -> Vec<(String, usize)> {
    let mut all = Vec::new();
    for i in 0..map.len() {
        all.push((map.token_at(i).0.clone(), map.count_at(i)));
    }
    all.sort();
    all
}

fn counted(words: &[&str]) -> FrequencyMap {
    let mut map = FrequencyMap::new();
    for word in words {
        map.bump(token(word));
    }
    map
}

#[test]
fn new_map_holds_nothing() {
    let map = FrequencyMap::new();
    assert_eq!(map.len(), 0);
    assert_eq!(map.get(&token("hello")), None);
}

#[test]
fn bump_counts_each_occurrence() {
    let map = counted(&["hello", "world", "hello"]);
    assert_eq!(map.len(), 2);
    assert_eq!(map.get(&token("hello")), Some(2));
    assert_eq!(map.get(&token("world")), Some(1));
    assert_eq!(map.get(&token("other")), None);
}

#[test]
fn tokens_differ_by_case() {
    let map = counted(&["Hello", "hello"]);
    assert_eq!(map.len(), 2);
    assert_eq!(map.get(&token("Hello")), Some(1));
    assert_eq!(map.get(&token("hello")), Some(1));
}

#[test]
fn add_counts_several_at_once() {
    let mut map = FrequencyMap::new();
    map.add(token("a"), 3);
    map.add(token("a"), 4);
    map.add(token("b"), 1);
    assert_eq!(entries(&map), vec![(String::from("a"), 7), (String::from("b"), 1)]);
}

#[test]
fn entries_come_in_the_order_of_first_counting() {
    let map = counted(&["b", "a", "b", "c"]);
    assert_eq!(map.token_at(0), &token("b"));
    assert_eq!(map.count_at(0), 2);
    assert_eq!(map.token_at(1), &token("a"));
    assert_eq!(map.count_at(1), 1);
    assert_eq!(map.token_at(2), &token("c"));
    assert_eq!(map.count_at(2), 1);
}

#[test]
fn merge_adds_counts_and_brings_new_tokens() {
    let mut acc = counted(&["hello", "hello", "world"]);
    acc.merge(counted(&["world", "new", "world"]));
    assert_eq!(
        entries(&acc),
        vec![(String::from("hello"), 2), (String::from("new"), 1), (String::from("world"), 3)]
    );
}

#[test]
fn merge_with_an_empty_map_changes_nothing() {
    let mut acc = counted(&["a", "b", "a"]);
    acc.merge(FrequencyMap::new());
    assert_eq!(entries(&acc), vec![(String::from("a"), 2), (String::from("b"), 1)]);
    let mut empty = FrequencyMap::new();
    empty.merge(counted(&["a", "b", "a"]));
    assert_eq!(entries(&empty), vec![(String::from("a"), 2), (String::from("b"), 1)]);
}

#[test]
fn merge_order_does_not_matter() {
    let parts: [&[&str]; 3] = [&["a", "b"], &["b", "c", "c"], &["a", "d"]];
    let mut forward = FrequencyMap::new();
    for part in parts.iter() {
        forward.merge(counted(part));
    }
    let mut backward = FrequencyMap::new();
    for part in parts.iter().rev() {
        backward.merge(counted(part));
    }
    let mut grouped = counted(parts[1]);
    grouped.merge(counted(parts[2]));
    let mut regrouped = counted(parts[0]);
    regrouped.merge(grouped);
    assert_eq!(entries(&forward), entries(&backward));
    assert_eq!(entries(&forward), entries(&regrouped));
    assert_eq!(
        entries(&forward),
        vec![
            (String::from("a"), 2),
            (String::from("b"), 2),
            (String::from("c"), 2),
            (String::from("d"), 1)
        ]
    );
}

#[test]
fn record_creates_the_map_of_a_new_author() {
    let mut by_author = AuthorTallies::new();
    assert_eq!(by_author.len(), 0);
    assert!(by_author.get(&person("A")).is_none());
    by_author.record(&person("A"), token("hello"));
    by_author.record(&person("B"), token("hello"));
    by_author.record(&person("A"), token("hello"));
    by_author.record(&person("A"), token("world"));
    assert_eq!(by_author.len(), 2);
    let a = by_author.get(&person("A")).unwrap();
    assert_eq!(entries(a), vec![(String::from("hello"), 2), (String::from("world"), 1)]);
    let b = by_author.get(&person("B")).unwrap();
    assert_eq!(entries(b), vec![(String::from("hello"), 1)]);
    assert_eq!(by_author.author_at(0), &person("A"));
    assert_eq!(by_author.author_at(1), &person("B"));
    assert_eq!(entries(by_author.tally_at(1)), vec![(String::from("hello"), 1)]);
}

#[test]
fn merge_by_author_adds_or_brings_over() {
    let mut acc = AuthorTallies::new();
    acc.record(&person("A"), token("hello"));
    acc.record(&person("B"), token("x"));
    let mut delta = AuthorTallies::new();
    delta.record(&person("C"), token("new"));
    delta.record(&person("A"), token("hello"));
    delta.record(&person("A"), token("world"));
    acc.merge(delta);
    assert_eq!(acc.len(), 3);
    assert_eq!(
        entries(acc.get(&person("A")).unwrap()),
        vec![(String::from("hello"), 2), (String::from("world"), 1)]
    );
    assert_eq!(entries(acc.get(&person("B")).unwrap()), vec![(String::from("x"), 1)]);
    assert_eq!(entries(acc.get(&person("C")).unwrap()), vec![(String::from("new"), 1)]);
}

#[test]
fn partition_gives_each_worker_a_run_of_the_same_length() {
    assert_eq!(
        partition(10, 3),
        vec![
            ChunkRange { start: 0, end: 3 },
            ChunkRange { start: 3, end: 6 },
            ChunkRange { start: 6, end: 9 }
        ]
    );
    assert_eq!(
        partition(6, 2),
        vec![ChunkRange { start: 0, end: 3 }, ChunkRange { start: 3, end: 6 }]
    );
    assert_eq!(partition(7, 1), vec![ChunkRange { start: 0, end: 7 }]);
}

#[test]
fn partition_with_more_workers_than_messages_gives_empty_runs() {
    assert_eq!(partition(3, 5), vec![ChunkRange { start: 0, end: 0 }; 5]);
    assert_eq!(partition(0, 2), vec![ChunkRange { start: 0, end: 0 }; 2]);
}

#[test]
fn large_map_counts_like_a_small_one() {
    let mut map = FrequencyMap::new();
    for round in 1..=3 {
        for i in 0..5000 {
            if i % round == 0 {
                map.bump(Token::from(format!("word{}", i)));
            }
        }
    }
    assert_eq!(map.len(), 5000);
    for i in 0..5000 {
        let expected = 1 + usize::from(i % 2 == 0) + usize::from(i % 3 == 0);
        assert_eq!(map.get(&Token::from(format!("word{}", i))), Some(expected), "word{}", i);
        assert_eq!(map.token_at(i), &Token::from(format!("word{}", i)));
        assert_eq!(map.count_at(i), expected);
    }
    assert_eq!(map.get(&token("word5000")), None);
    assert_eq!(map.get(&token("")), None);
}

#[test]
fn map_counts_the_same_around_the_start_of_the_index() {
    for size in [30, 31, 32, 33, 34, 64] {
        let mut map = FrequencyMap::new();
        for i in 0..size {
            map.bump(Token::from(format!("t{}", i)));
        }
        for i in 0..size {
            map.add(Token::from(format!("t{}", i)), i + 1);
        }
        assert_eq!(map.len(), size);
        for i in 0..size {
            assert_eq!(map.get(&Token::from(format!("t{}", i))), Some(i + 2), "{} of {}", i, size);
        }
        assert_eq!(map.get(&Token::from(format!("t{}", size))), None);
    }
}

#[test]
fn merge_of_large_maps() {
    let mut acc = FrequencyMap::new();
    let mut delta = FrequencyMap::new();
    for i in 0..300 {
        acc.add(Token::from(format!("w{}", i)), 2);
    }
    for i in 200..500 {
        delta.add(Token::from(format!("w{}", i)), 3);
    }
    acc.merge(delta);
    assert_eq!(acc.len(), 500);
    for i in 0..500 {
        let expected = if i < 200 { 2 } else if i < 300 { 5 } else { 3 };
        assert_eq!(acc.get(&Token::from(format!("w{}", i))), Some(expected), "w{}", i);
    }
}

#[test]
fn tokens_of_other_scripts_are_found() {
    let words = ["привет", "мир", "こんにちは", "世界", "héllo", "hello", "🙂x", "x🙂"];
    let mut map = FrequencyMap::new();
    for round in 0..40 {
        for word in words {
            map.bump(Token::from(format!("{}{}", word, round % 20)));
        }
    }
    assert_eq!(map.len(), 160);
    for round in 0..20 {
        for word in words {
            assert_eq!(map.get(&Token::from(format!("{}{}", word, round))), Some(2));
        }
    }
}

#[test]
fn many_authors_are_kept_apart() {
    let mut by_author = AuthorTallies::new();
    for round in 0..3 {
        for i in 0..200 {
            by_author.record(&Person(format!("author{}", i)), Token::from(format!("w{}", (i + round) % 7)));
        }
    }
    assert_eq!(by_author.len(), 200);
    for i in 0..200 {
        let tally = by_author.get(&Person(format!("author{}", i))).unwrap();
        assert_eq!(tally.len(), 3);
        for round in 0..3 {
            assert_eq!(tally.get(&Token::from(format!("w{}", (i + round) % 7))), Some(1));
        }
        assert_eq!(by_author.author_at(i), &Person(format!("author{}", i)));
    }
    assert!(by_author.get(&person("author200")).is_none());
}

#[test]
fn merge_of_many_authors() {
    let mut acc = AuthorTallies::new();
    let mut delta = AuthorTallies::new();
    for i in 0..60 {
        acc.record(&Person(format!("a{}", i)), token("x"));
    }
    for i in 40..100 {
        delta.record(&Person(format!("a{}", i)), token("x"));
        delta.record(&Person(format!("a{}", i)), token("y"));
    }
    acc.merge(delta);
    assert_eq!(acc.len(), 100);
    for i in 0..100 {
        let tally = acc.get(&Person(format!("a{}", i))).unwrap();
        let x = if i < 40 { 1 } else if i < 60 { 2 } else { 1 };
        assert_eq!(tally.get(&token("x")), Some(x), "a{}", i);
        assert_eq!(tally.get(&token("y")), if i < 40 { None } else { Some(1) }, "a{}", i);
    }
}

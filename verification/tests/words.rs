use chat_stats::normalize::{join_unmarked, mark_emoji};
use chat_stats::tokenize::{discard_empty, normalize_fragments};
use chat_stats::{
    has_only_emoji_fragments, is_emoji_only, is_separator_char, remove_emojis,
    settles_in_one_pass, split_fragments, tokenize, Token,
};

fn strings(items: &[&str]) -> Vec<String> {
    items.iter().map(|item| String::from(*item)).collect()
}

fn texts(tokens: Vec<Token>) -> Vec<String> {
    tokens.into_iter().map(|token| token.0).collect()
}

#[test]
fn every_separator_ends_a_word() {
    for c in [' ', ',', '.', '(', ')', '-', '!', '?', '\'', '"', '\n', '\t'] {
        assert!(is_separator_char(c), "{:?} is a separator", c);
    }
}

#[test]
fn other_characters_do_not_end_a_word() {
    for c in ['a', 'Z', '0', '_', ';', ':', '/', '\r', 'é', '😀', '[', ']', '+'] {
        assert!(!is_separator_char(c), "{:?} is not a separator", c);
    }
}

#[test]
fn fragments_of_a_plain_sentence() {
    assert_eq!(split_fragments("hello world"), vec!["hello", "world"]);
}

#[test]
fn fragments_leave_out_empty_pieces() {
    assert_eq!(split_fragments("  hello,, world!  "), vec!["hello", "world"]);
    assert_eq!(split_fragments("...a---b???"), vec!["a", "b"]);
}

#[test]
fn fragments_of_text_without_separator() {
    assert_eq!(split_fragments("hello"), vec!["hello"]);
}

#[test]
fn fragments_of_nothing() {
    assert_eq!(split_fragments(""), Vec::<String>::new());
    assert_eq!(split_fragments(" ,.()-!?'\"\n\t"), Vec::<String>::new());
}

#[test]
fn fragments_split_on_each_separator() {
    assert_eq!(
        split_fragments("a b,c.d(e)f-g!h?i'j\"k\nl\tm"),
        vec!["a", "b", "c", "d", "e", "f", "g", "h", "i", "j", "k", "l", "m"]
    );
}

#[test]
fn fragments_keep_characters_of_several_bytes() {
    assert_eq!(split_fragments("naïve café-crème"), vec!["naïve", "café", "crème"]);
    assert_eq!(split_fragments("привет, мир!"), vec!["привет", "мир"]);
}

#[test]
fn fragments_do_not_split_on_other_punctuation() {
    assert_eq!(split_fragments("a;b:c/d"), vec!["a;b:c/d"]);
}

#[test]
fn emoji_is_stripped_and_the_accent_stays() {
    assert_eq!(remove_emojis("café😀"), "café");
}

#[test]
fn emoji_glued_to_a_word_goes() {
    assert_eq!(remove_emojis("hello😀"), "hello");
    assert_eq!(remove_emojis("😀hello"), "hello");
    assert_eq!(remove_emojis("a😀b"), "ab");
}

#[test]
fn text_without_emoji_is_left_alone() {
    assert_eq!(remove_emojis("hello"), "hello");
    assert_eq!(remove_emojis(""), "");
    assert_eq!(remove_emojis("e\u{301}"), "e\u{301}");
}

#[test]
fn emoji_of_several_code_points_goes_as_a_whole() {
    assert_eq!(remove_emojis("go🇺🇸now"), "gonow");
    assert_eq!(remove_emojis("x👨‍👩‍👧‍👦y"), "xy");
    assert_eq!(remove_emojis("ok👍🏽"), "ok");
}

#[test]
fn word_of_emoji_alone_is_stripped_to_nothing() {
    assert_eq!(remove_emojis("😀"), "");
    assert_eq!(remove_emojis("😀🎉🇺🇸"), "");
}

#[test]
fn half_a_flag_is_no_emoji() {
    assert_eq!(remove_emojis("🇺"), "🇺");
}

#[test]
fn stripping_twice_changes_nothing_more() {
    for text in ["café😀", "hello", "", "😀", "a😀b🎉c", "go🇺🇸now"] {
        let once = remove_emojis(text);
        assert_eq!(remove_emojis(&once), once);
        assert!(settles_in_one_pass(text));
    }
}

#[test]
fn stripping_can_leave_a_new_emoji() {
    let text = "🇺😀🇸";
    let once = remove_emojis(text);
    assert_eq!(once, "🇺🇸");
    assert_eq!(remove_emojis(&once), "");
    assert!(!settles_in_one_pass(text));
}

#[test]
fn tokens_of_a_plain_sentence() {
    assert_eq!(texts(tokenize("hello world")), vec!["hello", "world"]);
    assert_eq!(texts(tokenize("hello!")), vec!["hello"]);
}

#[test]
fn tokens_lose_their_emoji() {
    assert_eq!(texts(tokenize("hello😀 world🎉!")), vec!["hello", "world"]);
}

#[test]
fn emoji_only_fragments_vanish() {
    assert_eq!(tokenize("😀 🎉,🇺🇸-👍🏽"), Vec::<Token>::new());
    assert_eq!(tokenize("😀"), Vec::<Token>::new());
    assert_eq!(texts(tokenize("😀 word 🎉")), vec!["word"]);
}

#[test]
fn tokens_of_nothing() {
    assert_eq!(tokenize(""), Vec::<Token>::new());
    assert_eq!(tokenize(" - "), Vec::<Token>::new());
}

#[test]
fn tokens_keep_their_case_and_order() {
    assert_eq!(texts(tokenize("Hello hello HELLO")), vec!["Hello", "hello", "HELLO"]);
}

#[test]
fn token_from_a_string_slice() {
    assert_eq!(Token::from("word"), Token(String::from("word")));
}

#[test]
fn token_from_a_string() {
    assert_eq!(Token::from(String::from("word")), Token(String::from("word")));
}

#[test]
fn unmarked_clusters_are_joined_in_order() {
    let clusters = strings(&["a", "b", "c", "d"]);
    assert_eq!(join_unmarked(&clusters, &vec![false, true, false, true]), "ac");
    assert_eq!(join_unmarked(&clusters, &vec![false, false, false, false]), "abcd");
    assert_eq!(join_unmarked(&clusters, &vec![true, true, true, true]), "");
}

#[test]
fn cluster_without_a_mark_stays() {
    let clusters = strings(&["a", "b", "c"]);
    assert_eq!(join_unmarked(&clusters, &vec![true]), "bc");
    assert_eq!(join_unmarked(&clusters, &Vec::new()), "abc");
    assert_eq!(join_unmarked(&clusters, &vec![false, true, false, true, true]), "ac");
    assert_eq!(join_unmarked(&Vec::new(), &vec![true]), "");
}

#[test]
fn emoji_are_marked() {
    let clusters = strings(&["a", "😀", "🇺🇸", "🇺", "é", "#", "©"]);
    assert_eq!(mark_emoji(&clusters), vec![false, true, true, false, false, false, true]);
    assert_eq!(mark_emoji(&Vec::new()), Vec::<bool>::new());
}

#[test]
fn fragments_are_stripped_one_by_one() {
    let pieces = strings(&["hello😀", "😀", "world"]);
    assert_eq!(normalize_fragments(&pieces), strings(&["hello", "", "world"]));
}

#[test]
fn empty_words_are_discarded() {
    let words = strings(&["", "a", "", "", "b", ""]);
    assert_eq!(discard_empty(words), vec![Token::from("a"), Token::from("b")]);
    assert_eq!(discard_empty(strings(&["", ""])), Vec::<Token>::new());
    assert_eq!(discard_empty(Vec::new()), Vec::<Token>::new());
}

#[test]
fn stripping_never_adds_anything() {
    for text in ["", "hello", "café😀", "😀", "🇺😀🇸", "a😀b🎉c", "e\u{301}x👍🏽"] {
        let stripped = remove_emojis(text);
        assert!(stripped.chars().count() <= text.chars().count(), "{:?}", text);
        let mut rest = text.chars();
        for c in stripped.chars() {
            assert!(rest.any(|d| d == c), "{:?} is not what is left of {:?}", stripped, text);
        }
    }
}

#[test]
fn text_comes_back_unchanged_exactly_when_it_holds_no_emoji() {
    for text in ["", "hello", "plain ASCII letters", "naïve", "🇺", "#"] {
        assert_eq!(remove_emojis(text), text);
    }
    for text in ["😀", "a😀", "🇺🇸", "©"] {
        assert_ne!(remove_emojis(text), text);
    }
}

#[test]
fn text_of_emoji_alone() {
    for text in ["", "😀", "😀🎉", "🇺🇸👍🏽", "©"] {
        assert!(is_emoji_only(text), "{:?}", text);
        assert_eq!(remove_emojis(text), "");
    }
    for text in ["a", "😀a", "a😀", "🇺", "😀 🎉", "#"] {
        assert!(!is_emoji_only(text), "{:?}", text);
        assert_ne!(remove_emojis(text), "");
    }
}

#[test]
fn text_whose_fragments_are_emoji_alone_yields_no_token() {
    for text in ["", " ", "😀", "😀 🎉,🇺🇸-👍🏽", "(😀)", "!?"] {
        assert!(has_only_emoji_fragments(text), "{:?}", text);
        assert_eq!(tokenize(text), Vec::<Token>::new());
    }
    for text in ["a", "😀 word 🎉", "😀a", "🇺", "😀,x"] {
        assert!(!has_only_emoji_fragments(text), "{:?}", text);
        assert!(!tokenize(text).is_empty());
    }
}

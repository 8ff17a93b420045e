use engagic_core::pdf::validator::{TextStats, TextValidator, Verdict};

#[test]
fn test_good_quality_text() {
    let validator = TextValidator::new();

    let good_text = "The city council meeting agenda includes discussion of the new zoning ordinance. \
                    The planning commission will review the budget allocation for infrastructure projects. \
                    Public comment is encouraged at the hearing.";

    assert!(validator.is_good_quality(good_text));
}

#[test]
fn test_too_short() {
    let validator = TextValidator::new();
    let short_text = "Too short";
    assert!(!validator.is_good_quality(short_text));
}

#[test]
fn test_gibberish() {
    let validator = TextValidator::new();
    let gibberish = "xyzabc qwerty asdfgh zxcvbn mnbvcx qweasd zxcasd qwezxc asdzxc qweasdzxc \
                    mnbvcxzasd qwertyzxc asdfghmnb vcxzaqwer tyuiopasdf ghjklzxcv bnmqwert yuiopasdf";
    assert!(!validator.is_good_quality(gibberish));
}

#[test]
fn test_stats() {
    let validator = TextValidator::new();
    let text = "The city council meeting agenda includes discussion";
    let stats = validator.get_stats(text);

    assert!(stats.total_chars > 0);
    assert!(stats.word_count > 0);
    let letter_ratio = stats.letter_count as f32 / stats.total_chars as f32;
    assert!(letter_ratio > 0.5);
    assert!(stats.letter_percent > 50);
}

#[test]
fn stats_are_exact() {
    let validator = TextValidator::new();
    let stats = validator.get_stats("The city council meeting agenda includes discussion");
    assert_eq!(
        stats,
        TextStats {
            total_chars: 51,
            letter_count: 45,
            letter_percent: 88,
            word_count: 7,
            recognizable_words: 6,
        }
    );
}

#[test]
fn stats_of_empty_text() {
    let validator = TextValidator::new();
    let stats = validator.get_stats("");
    assert_eq!(
        stats,
        TextStats {
            total_chars: 0,
            letter_count: 0,
            letter_percent: 0,
            word_count: 0,
            recognizable_words: 0,
        }
    );
}

#[test]
fn stats_count_characters_not_bytes() {
    let validator = TextValidator::new();
    let stats = validator.get_stats("é à");
    assert_eq!(stats.total_chars, 3);
    assert_eq!(stats.letter_count, 2);
    assert_eq!(stats.letter_percent, 66);
    assert_eq!(stats.word_count, 2);
}

#[test]
fn words_are_split_at_any_white_space() {
    let validator = TextValidator::new();
    let stats = validator.get_stats("  one\ttwo\n\nthree\u{00A0}four\u{2003}five  ");
    assert_eq!(stats.word_count, 5);
}

#[test]
fn words_are_recognized_whatever_their_case_and_punctuation() {
    let validator = TextValidator::new();
    let stats = validator.get_stats("THE (City) council, \"Meeting\" 1agenda2 xyz the-city");
    assert_eq!(stats.word_count, 7);
    assert_eq!(stats.recognizable_words, 5);
}

#[test]
fn only_the_first_hundred_words_are_sampled() {
    let validator = TextValidator::new();
    let mut text = String::new();
    for _ in 0..100 {
        text.push_str("lorem ");
    }
    for _ in 0..10 {
        text.push_str("council ");
    }
    let stats = validator.get_stats(&text);
    assert_eq!(stats.word_count, 110);
    assert_eq!(stats.recognizable_words, 0);
}

#[test]
fn verdict_good() {
    let validator = TextValidator::new();
    let good_text = "The city council meeting agenda includes discussion of the new zoning ordinance. \
                    The planning commission will review the budget allocation for infrastructure projects. \
                    Public comment is encouraged at the hearing.";
    assert_eq!(validator.assess(good_text), Verdict::Good);
}

#[test]
fn text_under_one_hundred_characters_is_too_short() {
    let validator = TextValidator::new();
    let text = "the city council ".repeat(5) + "the city council";
    assert_eq!(text.chars().count(), 101);
    assert_ne!(validator.assess(&text), Verdict::TooShort);
    let shorter = &text[..99];
    assert_eq!(validator.assess(shorter), Verdict::TooShort);
    assert!(!validator.is_good_quality(shorter));
    assert_eq!(validator.assess(""), Verdict::TooShort);
}

#[test]
fn length_is_counted_in_characters() {
    let validator = TextValidator::new();
    // 60 characters in 120 bytes
    let text = "é".repeat(60);
    assert_eq!(text.len(), 120);
    assert_eq!(validator.assess(&text), Verdict::TooShort);
}

#[test]
fn letter_ratio_under_thirty_percent_fails() {
    let validator = TextValidator::new();
    // 29 letters among 100 characters
    let low = "a".repeat(29) + &"1".repeat(71);
    assert_eq!(validator.assess(&low), Verdict::LowLetterRatio);
    assert!(!validator.is_good_quality(&low));
    // 30 letters among 100 characters pass this check and fail the next
    let edge = "a".repeat(30) + &"1".repeat(70);
    assert_eq!(validator.assess(&edge), Verdict::TooFewWords);
    // long texts fail in the same way
    let long = "ab 12345 ".repeat(1000);
    assert_eq!(validator.assess(&long), Verdict::LowLetterRatio);
}

#[test]
fn fewer_than_twenty_words_fail() {
    let validator = TextValidator::new();
    let nineteen = "council ".repeat(19);
    assert_eq!(validator.assess(&nineteen), Verdict::TooFewWords);
    let twenty = "council ".repeat(20);
    assert_eq!(validator.assess(&twenty), Verdict::Good);
}

#[test]
fn gibberish_fails_on_recognizable_words() {
    let validator = TextValidator::new();
    let letters = ['q', 'z', 'x', 'j', 'k', 'v', 'w', 'f'];
    let mut text = String::new();
    for i in 0..80 {
        let mut word = String::from("zq");
        let mut n = i;
        for _ in 0..4 {
            word.push(letters[n % 8]);
            n /= 8;
        }
        assert_eq!(word.len(), 6);
        if i > 0 {
            text.push(' ');
        }
        text.push_str(&word);
    }
    let stats = validator.get_stats(&text);
    assert_eq!(stats.word_count, 80);
    assert_eq!(stats.recognizable_words, 0);
    assert!(stats.total_chars >= 100);
    assert!(stats.letter_percent >= 30);
    assert_eq!(validator.assess(&text), Verdict::TooFewRecognizable);
    assert!(!validator.is_good_quality(&text));
}

#[test]
fn short_samples_are_not_judged_by_their_words() {
    let validator = TextValidator::new();
    // 49 unknown words of which most have one letter
    let text = "x ".repeat(40) + &"lorem ".repeat(9);
    let stats = validator.get_stats(&text);
    assert_eq!(stats.word_count, 49);
    assert_eq!(stats.recognizable_words, 0);
    assert_eq!(validator.assess(&text), Verdict::Good);
    // one word more and the sample is judged
    let longer = text + "ipsum";
    assert_eq!(validator.assess(&longer), Verdict::TooFewRecognizable);
}

#[test]
fn five_recognizable_words_are_enough() {
    let validator = TextValidator::new();
    let four = "council ".repeat(4) + &"lorem ".repeat(46);
    assert_eq!(validator.assess(&four), Verdict::TooFewRecognizable);
    let five = "council ".repeat(5) + &"lorem ".repeat(45);
    assert_eq!(validator.assess(&five), Verdict::Good);
}

#[test]
fn too_many_single_character_words_fail() {
    let validator = TextValidator::new();
    // 21 of 50 words have one character: 42 percent
    let many = "council ".repeat(29) + &"x ".repeat(21);
    assert_eq!(validator.assess(&many), Verdict::TooManySingleChars);
    // 20 of 50 words have one character: 40 percent, which is allowed
    let edge = "council ".repeat(30) + &"x ".repeat(20);
    assert_eq!(validator.assess(&edge), Verdict::Good);
}

#[test]
fn a_word_of_one_wide_character_has_one_character() {
    let validator = TextValidator::new();
    let many = "council ".repeat(29) + &"é ".repeat(21);
    assert_eq!(validator.assess(&many), Verdict::TooManySingleChars);
}

#[test]
fn default_validator_is_the_standard_one() {
    let validator = TextValidator::default();
    assert!(!validator.is_good_quality("Too short"));
    assert_eq!(validator.assess(&"council ".repeat(20)), Verdict::Good);
}

#[test]
fn civic_words_are_looked_up_as_they_stand() {
    let validator = TextValidator::new();
    for word in ["the", "council", "adopt", "chairwoman", "by"] {
        assert!(validator.is_civic_word(&word.to_string()));
    }
    for word in ["The", "councils", "", "lorem", " the"] {
        assert!(!validator.is_civic_word(&word.to_string()));
    }
}

#[test]
fn words_are_cleaned_before_they_are_looked_up() {
    let validator = TextValidator::new();
    let chars = |s: &str| s.chars().collect::<Vec<char>>();
    assert!(validator.is_recognizable(&chars("Council")));
    assert!(validator.is_recognizable(&chars("(BUDGET),")));
    assert!(validator.is_recognizable(&chars("42zoning.")));
    assert!(!validator.is_recognizable(&chars("re-zoning")));
    assert!(!validator.is_recognizable(&chars("zon1ng")));
    assert!(!validator.is_recognizable(&chars("12345")));
    assert!(!validator.is_recognizable(&chars("")));
}

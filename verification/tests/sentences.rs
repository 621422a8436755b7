//! Cutting text into utterances.

use kukuryku::kokoro::split_sentences;

#[test]
fn sentences_end_at_their_punctuation() {
    assert_eq!(
        split_sentences(
            "This is the first one. This is the second! Or is it the third? It is; that is \
             settled now."
        ),
        vec![
            "This is the first one.",
            "This is the second!",
            "Or is it the third? It is;",
            "that is settled now.",
        ]
    );
}

#[test]
fn lines_are_utterances_of_their_own() {
    assert_eq!(
        split_sentences("A first line of text\n\n  A second line of text  \n"),
        vec!["A first line of text", "A second line of text"]
    );
}

#[test]
fn punctuation_inside_words_breaks_nothing() {
    assert_eq!(
        split_sentences("Version 3.14 of example.com is out now"),
        vec!["Version 3.14 of example.com is out now"]
    );
}

#[test]
fn short_fragments_join_their_predecessor() {
    assert_eq!(split_sentences("Go. This is a longer sentence."), vec!["Go.", "This is a longer sentence."]);
    assert_eq!(split_sentences("This is a longer sentence. Go."), vec!["This is a longer sentence. Go."]);
    assert_eq!(split_sentences("Exactly sixteen! Exactly sixteen!"), vec!["Exactly sixteen!", "Exactly sixteen!"]);
}

#[test]
fn long_runs_are_wrapped() {
    let text = vec!["word"; 100].join(" ");
    let chunks = split_sentences(&text);
    assert_eq!(chunks.len(), 2);
    assert_eq!(chunks[0].chars().count(), 299);
    assert_eq!(chunks[1].chars().count(), 199);
    assert_eq!(chunks.join(" "), text);
}

#[test]
fn long_runs_prefer_a_comma_past_the_middle() {
    let text = format!("{} end, {}", vec!["word"; 30].join(" "), vec!["tail"; 40].join(" "));
    let chunks = split_sentences(&text);
    assert_eq!(chunks[0], format!("{} end,", vec!["word"; 30].join(" ")));
    assert_eq!(chunks.join(" "), text);
}

#[test]
fn a_word_is_never_cut() {
    let long = "x".repeat(400);
    assert_eq!(split_sentences(&long), vec![long.clone()]);
}

#[test]
fn every_word_is_spoken_once() {
    let text = "One two. Three! Four five six seven eight nine ten? A, b; c.\n\nLast line here";
    let spoken = split_sentences(text).join(" ");
    assert_eq!(
        spoken.split_whitespace().collect::<Vec<&str>>(),
        text.split_whitespace().collect::<Vec<&str>>()
    );
}

#[test]
fn only_blank_text_is_silent() {
    for text in ["", " ", "\n\n", "\t \u{3000}"] {
        assert!(split_sentences(text).is_empty());
    }
    assert_eq!(split_sentences(" . "), vec!["."]);
}

/// However many fragments there are, no chunk outgrows what is spoken in one go.
#[test]
fn fragments_do_not_pile_up() {
    let text = vec!["a"; 1000].join("\n");
    let chunks = split_sentences(&text);
    assert!(chunks.len() > 1);
    assert!(chunks.iter().all(|c| c.chars().count() <= 300 + 16));
    assert_eq!(chunks.join(" "), vec!["a"; 1000].join(" "));
    assert!(chunks.iter().skip(1).all(|c| c.chars().count() >= 16));
    assert_eq!(chunks[0].chars().count(), 299);
}

/// Fragments behind a full sentence join it within the budget, and leave it together beyond.
#[test]
fn fragments_behind_a_full_sentence_join_it() {
    let full = format!("{}.", "wor ".repeat(74) + "end");
    assert_eq!(full.chars().count(), 300);
    let joined = format!("{full} b. c.");
    assert_eq!(split_sentences(&joined), vec![joined.clone()]);
    let text = format!("{full} one two. three four.");
    assert_eq!(split_sentences(&text), vec![full, "one two. three four.".to_string()]);
}

/// Behind a word that is over the budget by itself, fragments wait until they can stand alone.
#[test]
fn fragments_behind_an_overlong_word_join_it_too() {
    let long = "x".repeat(400);
    let few = format!("{long}\nb. c.");
    assert_eq!(split_sentences(&few), vec![format!("{long} b. c.")]);
    let more = format!("{long}\none two.\nthree four.\nb.");
    assert_eq!(split_sentences(&more), vec![long, "one two. three four. b.".to_string()]);
}

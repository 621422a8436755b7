//! What does the listener hear? Every case is a line that would be read aloud as punctuation,
//! or a line that must survive untouched because removing its markers would garble real words.

use kukuryku::markdown::strip;

/// Nested bullets are often written as a run of asterisks, each of which espeak would
/// pronounce. Both the marker run and spaced-out emphasis must go.
#[test]
fn nested_bullet_runs_are_not_spoken() {
    assert_eq!(strip("** deeply nested item"), "deeply nested item");
    assert_eq!(strip("  *** third level"), "third level");
    assert_eq!(strip("  ** spaced emphasis **"), "spaced emphasis");
    assert_eq!(strip("-- dashed nesting"), "dashed nesting");
}

/// Ordinary emphasis, the well-formed kind.
#[test]
fn emphasis_markers_are_not_spoken() {
    assert_eq!(strip("  - **deeply nested** item"), "deeply nested item");
    assert_eq!(strip("    * *one* and __two__ and ~~three~~"), "one and two and three");
    assert_eq!(strip("+ plain bullet"), "plain bullet");
}

/// The false-positive guard. These are prose/code, not markup, and any of them
/// coming out mangled is worse than leaving a stray asterisk in.
#[test]
fn arithmetic_and_identifiers_survive() {
    for text in ["3 * 4 = 12", "snake_case_name", "a _ b", "5 - 3 is two", "-5 degrees"] {
        assert_eq!(strip(text), text, "{text:?} must pass through unchanged");
    }
}

/// Headings lose their hashes and gain a period, so each lands as its own
/// chunk with a pause instead of running into the paragraph below.
#[test]
fn headings_become_sentences() {
    assert_eq!(strip("## A heading"), "A heading.");
    assert_eq!(strip("### Closed heading ###"), "Closed heading.");
    assert_eq!(strip("# Already done."), "Already done.");
    assert_eq!(strip("#hashtag not a heading"), "#hashtag not a heading");
}

/// Fenced code is unlistenable; the prose around it must still be spoken.
#[test]
fn fenced_code_disappears_but_prose_stays() {
    let doc = "Before the block.\n```rust\nlet x = 1;\n```\nAfter the block.";
    assert_eq!(strip(doc), "Before the block.\nAfter the block.");
    let tilde = "Before.\n~~~\ncode ``` here\n~~~\nAfter.";
    assert_eq!(strip(tilde), "Before.\nAfter.");
}

/// Inline code is usually a function or file name and belongs in the sentence,
/// so only the backticks go.
#[test]
fn inline_code_keeps_its_content() {
    assert_eq!(strip("Call `Pipeline::new` first."), "Call Pipeline::new first.");
    assert_eq!(strip("Use ``a ` b`` here."), "Use a ` b here.");
}

/// Link text is the readable half; URLs are not. Images have no readable half.
#[test]
fn links_read_their_text_and_images_vanish() {
    assert_eq!(strip("See [playback doc](docs/playback_control.md) now."), "See playback doc now.");
    assert_eq!(strip("A [ref link][1] here."), "A ref link here.");
    assert_eq!(strip("![a diagram](img.png)"), "");
    assert_eq!(strip("text ![a diagram](img.png) more"), "text more");
    assert_eq!(strip("[1]: https://example.com"), "");
    assert_eq!(strip("Go to <https://example.com> now."), "Go to now.");
    // A bracketed aside is not a link and keeps its brackets.
    assert_eq!(strip("that word [sic] there"), "that word [sic] there");
}

/// Tables and rules read linearly are pure punctuation.
#[test]
fn tables_and_rules_are_dropped() {
    let doc = "Intro.\n| a | b |\n|---|---|\n| 1 | 2 |\nOutro.";
    assert_eq!(strip(doc), "Intro.\nOutro.");
    assert_eq!(strip("---"), "");
    assert_eq!(strip("* * *"), "");
    assert_eq!(strip("Title\n====="), "Title");
}

/// Blockquotes, task boxes and footnote labels are structure, not speech.
#[test]
fn quotes_checkboxes_and_footnotes_lose_their_markers() {
    assert_eq!(strip("> > quoted text"), "quoted text");
    assert_eq!(strip("- [ ] todo item"), "todo item");
    assert_eq!(strip("- [x] done item"), "done item");
    assert_eq!(strip("[^1]: the footnote body"), "the footnote body");
}

/// Ordered markers stay: the number is information you want when listening.
#[test]
fn ordered_list_numbers_are_kept() {
    assert_eq!(strip("1. first step"), "1. first step");
    assert_eq!(strip("2) second step"), "2) second step");
}

/// Raw HTML is invisible when rendered, so it must be inaudible too — but
/// a comparison in prose is not a tag.
#[test]
fn html_tags_go_but_generics_and_comparisons_stay() {
    assert_eq!(strip("line<br>break"), "linebreak");
    assert_eq!(strip("<details><summary>x</summary>"), "x");
    assert_eq!(strip("<!-- hidden -->"), "");
    assert_eq!(strip("a < b > c"), "a < b > c");
    // Accepting any identifier as a tag would eat type parameters.
    assert_eq!(strip("Vec<String> and Option<PathBuf>."), "Vec<String> and Option<PathBuf>.");
    assert_eq!(strip("run `bench.sh <label>` now"), "run bench.sh <label> now");
}

/// A backslash-escaped marker meant the literal character.
#[test]
fn escapes_yield_the_literal_character() {
    assert_eq!(strip("a \\* b"), "a * b");
}

/// Malformed input is common in real notes and must not panic or eat the file.
#[test]
fn unterminated_constructs_are_handled() {
    assert_eq!(strip("Before.\n```\nnever closed"), "Before.");
    assert_eq!(strip("an *unclosed emphasis"), "an *unclosed emphasis");
    assert_eq!(strip("a `unclosed code"), "a `unclosed code");
}

/// Authors wrap `**bold phrases**` across a line break; a line-local pass would leave
/// the orphaned markers behind, which is exactly what gets read aloud.
#[test]
fn emphasis_pairs_across_a_line_break() {
    assert_eq!(strip("they are **not shipped\nwith the repo**."), "they are not shipped\nwith the repo.");
    // ...but not across a paragraph break, where an unrelated `*` could match.
    assert_eq!(strip("a **one\n\ntwo** b"), "a **one\ntwo** b");
}

/// Running the pass twice must not keep eating characters — `--send` and the
/// one-shot path both strip, and a doc may be re-fed through either.
#[test]
fn stripping_is_idempotent() {
    let doc = "# Title\n\n- **bold** item with `code` and [a link](u)\n\n```\nx\n```\n\n| a |\n\nEnd.";
    let once = strip(doc);
    assert_eq!(strip(&once), once);
}

#[test]
fn emphasis_of_every_kind_loses_its_markers() {
    assert_eq!(strip("an *italic* word"), "an italic word");
    assert_eq!(strip("an _italic_ word"), "an italic word");
    assert_eq!(strip("***both*** at once"), "both at once");
    assert_eq!(strip("(_aside_), then"), "(aside), then");
    assert_eq!(strip("**a *b* c**"), "a b c");
}

#[test]
fn emphasis_needs_the_same_run_on_both_ends() {
    assert_eq!(strip("**a*"), "**a*");
    assert_eq!(strip("*a_"), "*a_");
    assert_eq!(strip("~a~"), "~a~");
    assert_eq!(strip("~~~a~~~ b"), "");
    assert_eq!(strip("x ~~~a~~~ b"), "x ~~~a~~~ b");
}

#[test]
fn orphaned_runs_go_and_lone_markers_stay() {
    assert_eq!(strip("left ** right"), "left right");
    assert_eq!(strip("left __ right"), "left right");
    assert_eq!(strip("left * right"), "left * right");
    assert_eq!(strip("left ~ right"), "left ~ right");
}

#[test]
fn underscores_inside_words_stay() {
    assert_eq!(strip("a snake_case_name and __dunder__ here"), "a snake_case_name and dunder here");
    assert_eq!(strip("größe_über_alles"), "größe_über_alles");
}

#[test]
fn text_without_markers_is_untouched() {
    for text in ["plain words, and more.", "Wow! (really) 100% of it = all", "1 < 2"] {
        assert_eq!(strip(text), text);
    }
}

#[test]
fn blank_lines_part_paragraphs() {
    let whole = strip("one *a\n\nb* two");
    assert_eq!(whole, format!("{}\n{}", strip("one *a"), strip("b* two")));
    assert_eq!(whole, "one *a\nb* two");
}

#[test]
fn structure_ends_the_paragraph() {
    assert_eq!(strip("one *a\n| x |\nb* two"), "one *a\nb* two");
    assert_eq!(strip("one *a\n---\nb* two"), "one *a\nb* two");
    assert_eq!(strip("one *a\n[r]: u\nb* two"), "one *a\nb* two");
}

#[test]
fn only_the_marker_that_opened_a_fence_closes_it() {
    assert_eq!(strip("a\n```\n~~~\nb\n```\nc"), "a\nc");
    assert_eq!(strip("a\n~~~\n```\nb"), "a");
    assert_eq!(strip("a\n````\nb\n```\nc"), "a\nc");
}

#[test]
fn rules_may_be_spaced_but_not_mixed() {
    assert_eq!(strip("- - -"), "");
    assert_eq!(strip("____"), "");
    assert_eq!(strip("--"), "--");
    assert_eq!(strip("-=-"), "-=-");
}

#[test]
fn headings_end_like_sentences() {
    assert_eq!(strip("# Ready?"), "Ready?");
    assert_eq!(strip("# A list:"), "A list:");
    assert_eq!(strip("####### seven"), "####### seven");
    assert_eq!(strip("#"), "");
    assert_eq!(strip("> ## Quoted"), "Quoted.");
}

#[test]
fn lists_lose_bullets_and_boxes_of_any_kind() {
    assert_eq!(strip("+++ [X] done"), "done");
    assert_eq!(strip("- [y] not a box"), "[y] not a box");
    assert_eq!(strip("-"), "-");
    assert_eq!(strip(">- quoted item"), "quoted item");
}

#[test]
fn footnotes_and_definitions_differ() {
    assert_eq!(strip("[^note]: says more"), "says more");
    assert_eq!(strip("[note]: says more"), "");
    assert_eq!(strip("[note] says more"), "[note] says more");
}

#[test]
fn links_nest_and_images_take_their_alt_text_along() {
    assert_eq!(strip("see [a [b] c](u) now"), "see a [b] c now");
    assert_eq!(strip("Wow! ![alt][1] done"), "Wow! done");
    assert_eq!(strip("mail <me@example.com> please"), "mail please");
    assert_eq!(strip("[open](never closed"), "[open](never closed");
}

#[test]
fn code_spans_end_at_a_run_of_their_own_length() {
    assert_eq!(strip("a ``b` c`` d"), "a b` c d");
    assert_eq!(strip("a ``b` c"), "a `b c");
    assert_eq!(strip("a ``b c"), "a ``b c");
}

#[test]
fn html_is_told_from_other_angle_brackets() {
    assert_eq!(strip("a<BR/>b"), "ab");
    assert_eq!(strip("<a href=\"u\">link</a>"), "link");
    assert_eq!(strip("x <unknown> y"), "x <unknown> y");
    assert_eq!(strip("x < br > y"), "x < br > y");
}

#[test]
fn escapes_of_plain_characters_stay() {
    assert_eq!(strip("a \\# b"), "a # b");
    assert_eq!(strip("C:\\dir"), "C:\\dir");
    assert_eq!(strip("1\\. not a list"), "1. not a list");
}

#[test]
fn lines_are_tidy() {
    assert_eq!(strip("  a \t b  \n\n \n  c"), "a b\nc");
    assert_eq!(strip("a\r\nb"), "a\nb");
    assert_eq!(strip(""), "");
    assert_eq!(strip(" \n\t\n"), "");
}

#[test]
fn no_line_is_added() {
    let doc = "# T\n\n* a\n* b\n\n> q\n\n| x |\n";
    assert!(strip(doc).lines().count() <= doc.lines().count());
    assert_eq!(strip(doc), "T.\na\nb\nq");
}

fn letters(s: &str) -> String {
    s.chars().filter(|c| !c.is_whitespace() && *c != '.').collect()
}

#[test]
fn stripping_only_removes() {
    let doc = "# Über *uns*\n\n> - [x] **done** `now`\n\n1. see [a](b) and <br> ![i](j)\n\\# end";
    let kept = letters(&strip(doc));
    let mut rest = doc.chars();
    assert!(kept.chars().all(|c| rest.any(|d| d == c)));
    assert_eq!(kept, "Überunsdonenow1seeaand#end");
}

#[test]
fn clean_text_is_left_alone() {
    for text in ["Plain text, twice.", "Two lines\nof prose.", "1. first\n2. second"] {
        assert_eq!(strip(text), text);
        assert_eq!(strip(&strip(text)), strip(text));
    }
}

#[test]
fn comments_run_to_their_own_end() {
    assert_eq!(strip("x <!-- a > b --> y"), "x y");
    assert_eq!(strip("x<!-- <br> `c` -->y"), "xy");
    assert_eq!(strip("a <!-- one --> b <!-- two --> c"), "a b c");
    // Without `-->` the first `>` ends it.
    assert_eq!(strip("x <!-- a > b"), "x b");
    assert_eq!(strip("x <!-- a"), "x <!-- a");
}

#[test]
fn escaped_markers_open_and_close_nothing() {
    assert_eq!(strip("\\*a\\*"), "*a*");
    assert_eq!(strip("\\*\\*a\\*\\*"), "**a**");
    assert_eq!(strip("\\*a* b"), "*a* b");
    assert_eq!(strip("*a\\* b*"), "a* b");
    assert_eq!(strip("one \\_two\nthree\\_ four"), "one _two\nthree_ four");
    assert_eq!(strip("\\[a](u)"), "[a](u)");
    assert_eq!(strip("[a\\](u)"), "[a](u)");
    assert_eq!(strip("\\![a](u)"), "!a");
    assert_eq!(strip("a \\`b\\` c"), "a `b` c");
    assert_eq!(strip("a \\<br> b"), "a <br> b");
    assert_eq!(strip("\\# no heading"), "# no heading");
    assert_eq!(strip("# About C\\#"), "About C#.");
    assert_eq!(strip("## Closed \\# ##"), "Closed #.");
}

#[test]
fn escapes_are_resolved_once() {
    assert_eq!(strip("C:\\\\dir"), "C:\\dir");
    for text in ["a \\* b", "a \\# b", "C:\\dir"] {
        let once = strip(text);
        assert_eq!(strip(&once), once);
    }
}

#[test]
fn code_is_spoken_as_written() {
    assert_eq!(strip("use `<br>` here"), "use <br> here");
    assert_eq!(strip("the `<!-- c -->` comment"), "the <!-- c --> comment");
    assert_eq!(strip("both `**x**` and `_y_`"), "both **x** and _y_");
    assert_eq!(strip("*see `a*b` now*"), "see a*b now");
    assert_eq!(strip("match `a\\*b`"), "match a\\*b");
    assert_eq!(strip("``a ` <br> *b*`` ends"), "a ` <br> *b* ends");
}

/// A URL may contain backticks, so links go before code.
#[test]
fn links_go_before_code() {
    assert_eq!(strip("[a](x`y) and `z`"), "a and z");
    assert_eq!(strip("[`f`](u) is a function"), "f is a function");
}

#[test]
fn block_markers_go_one_behind_the_other() {
    assert_eq!(strip("- - a"), "a");
    assert_eq!(strip("* - + a"), "a");
    assert_eq!(strip("> - > b"), "b");
    assert_eq!(strip("- # Title"), "Title.");
    assert_eq!(strip("# - Title"), "Title.");
    assert_eq!(strip("- [ ] - [x] c"), "c");
    assert_eq!(strip("- [^1]: note"), "note");
    assert_eq!(strip("- -5 degrees"), "-5 degrees");
    assert_eq!(strip("- 1. first"), "1. first");
    assert_eq!(strip("# # a"), "a.");
}

#[test]
fn block_markers_go_in_one_pass() {
    for text in ["- - a", "> > - # b\n\n+ c", "# - [ ] d", "- 1. e\n- - - f", "-  -   g h"] {
        let once = strip(text);
        assert_eq!(strip(&once), once);
    }
}

#[test]
fn isolated_runs_are_removed() {
    assert_eq!(strip("a ** b"), "a b");
    assert_eq!(strip("a __ b ~~ c"), "a b c");
    assert_eq!(strip("x ***"), "x");
    assert_eq!(strip("a ~~~ b"), "a ~~~ b");
}

#[test]
fn without_headings_no_period_is_added() {
    let doc = "- **one** two.\n> three <br> four\n1. five.";
    let solid = |s: &str| -> String { s.chars().filter(|c| !c.is_whitespace()).collect() };
    let kept = solid(&strip(doc));
    let mut rest = doc.chars();
    assert!(kept.chars().all(|c| rest.any(|d| d == c)));
    assert_eq!(kept, "onetwo.threefour1.five.");
}

/// Inside a construct that is open, a backslash is content.
#[test]
fn backslashes_inside_are_content() {
    assert_eq!(strip("Open `C:\\` now"), "Open C:\\ now");
    assert_eq!(strip("``a\\`` and `b`"), "a\\ and b");
    assert_eq!(strip("[a](x\\) b"), "a b");
    assert_eq!(strip("[a][x\\] b"), "a b");
    assert_eq!(strip("![a](x\\) b"), "b");
    assert_eq!(strip("go <https://x\\> now"), "go now");
    assert_eq!(strip("<a href=C:\\>x</a>"), "x");
    // An escaped backtick opens nothing, but the code that is open may end with it.
    assert_eq!(strip("a \\`b` c"), "a `b` c");
    assert_eq!(strip("a `b\\` c"), "a b\\ c");
    // What code says closes no tag.
    assert_eq!(strip("x <b `c>d` e"), "x <b c>d e");
}

#[test]
fn structure_behind_block_markers_is_dropped() {
    assert_eq!(strip("> ---"), "");
    assert_eq!(strip("> | a | b |\n> text"), "text");
    assert_eq!(strip("- [ref]: https://example.com\n- item"), "item");
    assert_eq!(strip("> [^1]: note"), "note");
    assert_eq!(strip("> Title\n> ====="), "Title");
}

#[test]
fn fences_behind_block_markers_are_fences() {
    assert_eq!(strip("> a\n> ```rust\n> code\n> ```\n> b"), "a\nb");
    assert_eq!(strip("- a\n- ```\n  code\n  ```\n- b"), "a\nb");
    assert_eq!(strip("- ~~~\ncode\n~~~\nb"), "b");
    assert_eq!(strip("- ``` \nnever closed"), "");
    // Closed in the same line it is inline code.
    assert_eq!(strip("- ```code``` is inline"), "code is inline");
    // A fence that stands by itself is closed only by one that does.
    assert_eq!(strip("```\n> ```\ncode\n```\nb"), "b");
}

#[test]
fn nothing_is_left_for_a_second_pass() {
    for text in [
        "> ---",
        "> | a |",
        "- [r]: u",
        "- ```\nx\n```\ny",
        "> ```\n> x",
        "- # - [ ] a\n\n> = = =",
        "> = =\t=",
        "# | a",
    ] {
        let once = strip(text);
        assert_eq!(strip(&once), once);
    }
}

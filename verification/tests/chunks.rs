use tts_read::text::trim_str;
use tts_read::tts::edge::{split_into_chunks, MIN_CHUNK_CHARS};

fn chunks(text: &str) -> Vec<String> {
    split_into_chunks(text).into_iter().collect()
}

#[test]
fn short_fragment_glued_to_next_sentence() {
    assert_eq!(
        chunks("Hi. This is a fairly long sentence that goes on. Short."),
        vec!["Hi. This is a fairly long sentence that goes on.", "Short."]
    );
}

#[test]
fn sentences_accumulate_until_long_enough() {
    assert_eq!(
        chunks("One. Two. Three. Four. Five. Six. Seven. Eight. Nine."),
        vec!["One. Two. Three. Four. Five. Six.", "Seven. Eight. Nine."]
    );
}

#[test]
fn newline_ends_a_chunk() {
    assert_eq!(
        chunks("First sentence is long enough to stand alone!\nSecond line is also long enough, surely?\n"),
        vec!["First sentence is long enough to stand alone!", "Second line is also long enough, surely?"]
    );
}

#[test]
fn text_without_breaks_is_one_chunk() {
    assert_eq!(
        chunks("No terminator at all in this rather long piece of text"),
        vec!["No terminator at all in this rather long piece of text"]
    );
}

#[test]
fn short_text_is_one_chunk() {
    assert_eq!(chunks("Wait?! That is it."), vec!["Wait?! That is it."]);
}

#[test]
fn whitespace_only_text_is_returned_whole() {
    assert_eq!(chunks("   \n  "), vec!["   \n  "]);
    assert_eq!(chunks(""), vec![""]);
}

#[test]
fn no_text_lost_and_chunks_long_enough() {
    let text = "Alpha beta gamma delta epsilon zeta. Eta theta iota kappa lambda mu nu! \
                Xi omicron? Pi rho sigma tau upsilon phi chi psi omega.\nEnd";
    let cs = chunks(text);
    let joined: String = cs.concat().chars().filter(|c| !c.is_whitespace()).collect();
    let source: String = text.chars().filter(|c| !c.is_whitespace()).collect();
    assert_eq!(joined, source);
    for c in &cs[..cs.len() - 1] {
        assert!(c.chars().count() >= MIN_CHUNK_CHARS);
    }
    for c in &cs {
        assert_eq!(trim_str(c), *c);
    }
}

#[test]
fn unicode_whitespace_is_trimmed() {
    assert_eq!(trim_str("\u{3000} x y\u{a0}\u{2009}"), "x y");
    assert_eq!(trim_str("\u{200b}x"), "\u{200b}x");
}

#[test]
fn chunks_split_again_stay_whole() {
    let text = "Hi. This is a fairly long sentence that goes on.\nOne. Two. Three. Four. Five. Six. Seven.";
    for c in chunks(text) {
        assert_eq!(chunks(&c), vec![c.clone()]);
    }
}

#[test]
fn chunks_are_consecutive_pieces() {
    let text = "  The first sentence is long enough.  \n Then a second one follows here!  Tail  ";
    let chunks = split_into_chunks(text);
    let mut at = 0;
    for c in chunks.iter() {
        let found = text[at..].find(c.as_str()).unwrap() + at;
        assert!(text[at..found].chars().all(char::is_whitespace));
        at = found + c.len();
    }
    assert!(text[at..].chars().all(char::is_whitespace));
    assert_eq!(chunks.len(), 3);
}

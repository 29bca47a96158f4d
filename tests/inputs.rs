use embeddings::config::path_to_color;
use embeddings::note::{note_to_input, note_to_inputs, split_halves, split_inputs, Note, MAX_TOKENS};
use embeddings::tokens::Tokenizer;

fn note(title: &str, text: &str) -> Note {
    Note { title: title.to_string(), path: format!("{}.md", title), text_content: text.to_string() }
}

#[test]
fn input_joins_lines_and_trims() {
    assert_eq!(note_to_input("Idea", "  first line\nsecond line\n\n"), "Note title: Idea. Note content: first line second line");
}

#[test]
fn input_of_blank_note_is_its_title() {
    assert_eq!(note_to_input("Empty", " \n\t\n "), "Empty");
    assert_eq!(note_to_input("Empty", ""), "Empty");
}

#[test]
fn halves_split_at_middle_line() {
    assert_eq!(split_halves("a\nb\nc\nd"), ("a\nb".to_string(), "c\nd".to_string()));
    assert_eq!(split_halves("a\nb\nc"), ("a".to_string(), "b\nc".to_string()));
    assert_eq!(split_halves("only"), (String::new(), "only".to_string()));
    assert_eq!(split_halves("a\n"), ("a".to_string(), String::new()));
}

#[test]
fn inputs_split_only_when_over_budget() {
    let n = note("T", "one\ntwo");
    assert_eq!(split_inputs(&n, MAX_TOKENS), vec!["Note title: T. Note content: one two"]);
    assert_eq!(
        split_inputs(&n, MAX_TOKENS + 1),
        vec!["Note title: T. Note content: one", "Note title: T. Note content: two"]
    );
}

#[test]
fn tokenizer_counts_tokens() {
    let tokenizer = Tokenizer::new().unwrap();
    assert_eq!(tokenizer.count_tokens("hello world"), Some(2));
    assert_eq!(tokenizer.count_tokens(""), Some(0));
    let n = note("T", "short text");
    assert_eq!(note_to_inputs(&tokenizer, &n), Some(vec!["Note title: T. Note content: short text".to_string()]));
}

#[test]
fn long_note_is_split_in_two() {
    let tokenizer = Tokenizer::new().unwrap();
    let line = "lorem ipsum dolor sit amet consectetur adipiscing elit ".repeat(40);
    let text = vec![line.as_str(); 40].join("\n");
    let n = note("Long", &text);
    let inputs = note_to_inputs(&tokenizer, &n).unwrap();
    assert_eq!(inputs.len(), 2);
}

#[test]
fn plot_color_of_first_matching_folder() {
    let colors = vec![("Work".to_string(), "blue".to_string()), ("Work/Old".to_string(), "red".to_string())];
    assert_eq!(path_to_color("Work/Old/x.md", &colors), "blue");
    assert_eq!(path_to_color("Workshop/x.md", &colors), "gray");
    assert_eq!(path_to_color("x.md", &vec![]), "gray");
}

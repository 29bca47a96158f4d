//! Notes, the documents of a corpus, and the text sent to the embedding
//! provider for each.

use vstd::prelude::*;
use crate::text::{chars_of, push_str, string_of_range, views};
use crate::tokens::{token_count_of, Tokenizer};

verus! {

/// A note of the corpus: its title (the file name without extension), its
/// path relative to the corpus root, which identifies it, and its raw text.
pub struct Note {
    pub title: String,
    pub path: String,
    pub text_content: String,
}

/// Largest input, in tokens, that the embedding model accepts.
pub const MAX_TOKENS: usize = 8191;

/// Unicode White_Space characters.
pub open spec fn is_space(c: char) -> bool {
    ('\u{9}' <= c && c <= '\u{d}') || c == ' ' || c == '\u{85}' || c == '\u{a0}' || c == '\u{1680}'
        || ('\u{2000}' <= c && c <= '\u{200a}') || c == '\u{2028}' || c == '\u{2029}' || c == '\u{202f}'
        || c == '\u{205f}' || c == '\u{3000}'
}

/// Whether a character is Unicode white space.
pub fn is_space_exec(c: char) -> (r: bool)
    ensures
        r == is_space(c),
{
    ('\u{9}' <= c && c <= '\u{d}') || c == ' ' || c == '\u{85}' || c == '\u{a0}' || c == '\u{1680}'
        || ('\u{2000}' <= c && c <= '\u{200a}') || c == '\u{2028}' || c == '\u{2029}' || c == '\u{202f}'
        || c == '\u{205f}' || c == '\u{3000}'
}

/// First position at or after `i` that does not hold white space.
pub open spec fn skip_space(s: Seq<char>, i: int) -> int
    decreases s.len() - i,
{
    if i < 0 || i >= s.len() || !is_space(s[i]) {
        i
    } else {
        skip_space(s, i + 1)
    }
}

/// End of the text once trailing white space before `j` is dropped.
pub open spec fn drop_space_end(s: Seq<char>, j: int) -> int
    decreases j,
{
    if j <= 0 || j > s.len() || !is_space(s[j - 1]) {
        j
    } else {
        drop_space_end(s, j - 1)
    }
}

/// The text without leading and trailing white space.
pub open spec fn trimmed(s: Seq<char>) -> Seq<char> {
    let a = skip_space(s, 0);
    let b = drop_space_end(s, s.len() as int);
    if a >= b {
        Seq::empty()
    } else {
        s.subrange(a, b)
    }
}

/// The text with each line break turned into a space.
pub open spec fn joined_lines(s: Seq<char>) -> Seq<char> {
    s.map_values(|c: char| if c == '\n' { ' ' } else { c })
}

/// The input sent to the provider for a note: its title and its content on
/// one line, or the title alone when the note holds only white space.
pub open spec fn input_text(title: Seq<char>, text: Seq<char>) -> Seq<char> {
    let content = trimmed(joined_lines(text));
    if content.len() == 0 {
        title
    } else {
        "Note title: "@ + title + ". Note content: "@ + content
    }
}

/// Provider input for a note's title and text.
pub fn note_to_input(title: &str, text: &str) -> (r: String)
    ensures
        r@ == input_text(title@, text@),
{
    let cs = chars_of(text);
    let n = cs.len();
    let mut line: Vec<char> = Vec::new();
    let mut i: usize = 0;
    while i < n
        invariant
            n == cs.len(),
            cs@ == text@,
            i <= n,
            line@ == joined_lines(text@).take(i as int),
        decreases n - i,
    {
        line.push(if cs[i] == '\n' { ' ' } else { cs[i] });
        assert(line@ =~= joined_lines(text@).take(i + 1));
        i += 1;
    }
    let ghost s = joined_lines(text@);
    assert(line@ =~= s);
    let mut a: usize = 0;
    while a < n && is_space_exec(line[a])
        invariant
            n == line.len(),
            a <= n,
            skip_space(s, 0) == skip_space(s, a as int),
            line@ == s,
        decreases n - a,
    {
        a += 1;
    }
    let mut b: usize = n;
    while b > 0 && is_space_exec(line[b - 1])
        invariant
            n == line.len(),
            b <= n,
            drop_space_end(s, n as int) == drop_space_end(s, b as int),
            line@ == s,
        decreases b,
    {
        b -= 1;
    }
    if a >= b {
        return title.to_owned();
    }
    let content = string_of_range(&line, a, b);
    let mut r = String::new();
    push_str(&mut r, "Note title: ");
    push_str(&mut r, title);
    push_str(&mut r, ". Note content: ");
    push_str(&mut r, content.as_str());
    proof {
        reveal_strlit("Note title: ");
        reveal_strlit(". Note content: ");
    }
    r
}

/// Positions of the line breaks of a text, in order.
pub open spec fn newline_positions(s: Seq<char>) -> Seq<int>
    decreases s.len(),
{
    if s.len() == 0 {
        Seq::empty()
    } else {
        let rest = newline_positions(s.drop_last());
        if s.last() == '\n' {
            rest.push(s.len() - 1)
        } else {
            rest
        }
    }
}

/// The text cut in two at the middle of its lines: with `count` lines, the
/// first `count / 2` lines and the rest, each joined back with line breaks.
pub open spec fn halves(s: Seq<char>) -> (Seq<char>, Seq<char>) {
    let breaks = newline_positions(s);
    let mid = breaks.len() / 2 + breaks.len() % 2;
    if mid == 0 {
        (Seq::empty(), s)
    } else {
        let cut = breaks[mid - 1];
        (s.subrange(0, cut), s.subrange(cut + 1, s.len() as int))
    }
}

proof fn lemma_newline_positions(s: Seq<char>)
    ensures
        forall|k: int|
            0 <= k < newline_positions(s).len() ==> 0 <= #[trigger] newline_positions(s)[k] < s.len(),
    decreases s.len(),
{
    if s.len() > 0 {
        lemma_newline_positions(s.drop_last());
        let rest = newline_positions(s.drop_last());
        assert forall|k: int| 0 <= k < rest.len() implies 0 <= #[trigger] rest[k] < s.len() by {}
        if s.last() == '\n' {
            assert(newline_positions(s) == rest.push(s.len() - 1));
        } else {
            assert(newline_positions(s) == rest);
        }
    }
}

/// Splits a text in two at the middle of its lines.
pub fn split_halves(text: &str) -> (r: (String, String))
    ensures
        (r.0@, r.1@) == halves(text@),
{
    let cs = chars_of(text);
    let n = cs.len();
    let mut breaks: Vec<usize> = Vec::new();
    let mut i: usize = 0;
    while i < n
        invariant
            n == cs.len(),
            cs@ == text@,
            i <= n,
            breaks@.len() == newline_positions(text@.take(i as int)).len(),
            forall|k: int| 0 <= k < breaks@.len() ==> #[trigger] breaks@[k] as int == newline_positions(text@.take(i as int))[k],
        decreases n - i,
    {
        assert(text@.take(i + 1).drop_last() =~= text@.take(i as int));
        assert(text@.take(i + 1).last() == cs@[i as int]);
        if cs[i] == '\n' {
            breaks.push(i);
        }
        i += 1;
    }
    assert(text@.take(n as int) =~= text@);
    proof {
        lemma_newline_positions(text@);
    }
    let mid = breaks.len() / 2 + breaks.len() % 2;
    if mid == 0 {
        return (String::new(), text.to_owned());
    }
    let cut = breaks[mid - 1];
    (string_of_range(&cs, 0, cut), string_of_range(&cs, cut + 1, n))
}

/// The inputs sent to the provider for a note whose whole input counts
/// `token_count` tokens: the whole input when it fits the model, else one
/// input for each half of the text.
pub open spec fn inputs_for(title: Seq<char>, text: Seq<char>, token_count: nat) -> Seq<Seq<char>> {
    if token_count <= MAX_TOKENS {
        seq![input_text(title, text)]
    } else {
        let h = halves(text);
        seq![input_text(title, h.0), input_text(title, h.1)]
    }
}

/// The provider inputs for a note, given the token count of its whole input.
pub fn split_inputs(note: &Note, token_count: usize) -> (r: Vec<String>)
    ensures
        views(r@) == inputs_for(note.title@, note.text_content@, token_count as nat),
{
    if token_count <= MAX_TOKENS {
        let whole = note_to_input(&note.title, &note.text_content);
        let r = vec![whole];
        assert(views(r@) =~= inputs_for(note.title@, note.text_content@, token_count as nat));
        r
    } else {
        let (first, second) = split_halves(&note.text_content);
        let r = vec![note_to_input(&note.title, &first), note_to_input(&note.title, &second)];
        assert(views(r@) =~= inputs_for(note.title@, note.text_content@, token_count as nat));
        r
    }
}

/// The provider inputs for a note: its whole input when that fits the
/// model's token budget, else one per half of its text. `None` when the
/// tokenizer could not count the input.
pub fn note_to_inputs(tokenizer: &Tokenizer, note: &Note) -> (r: Option<Vec<String>>)
    ensures
        match r {
            Some(v) => token_count_of(input_text(note.title@, note.text_content@)) is Some && views(v@)
                == inputs_for(note.title@, note.text_content@, token_count_of(input_text(note.title@, note.text_content@))->0 as nat),
            None => token_count_of(input_text(note.title@, note.text_content@)) is None,
        },
{
    let whole = note_to_input(&note.title, &note.text_content);
    match tokenizer.count_tokens(&whole) {
        Some(count) => Some(split_inputs(note, count)),
        None => None,
    }
}

} // verus!

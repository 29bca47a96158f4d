use embeddings::graph::LinkGraph;
use embeddings::note::Note;
use embeddings::ranking::{rank_order, RankError};
use embeddings::report::{note_title, report_header, report_line};
use embeddings::unlinked::{select_unlinked, unlinked_candidates};

fn bits(x: f32) -> u32 {
    x.to_bits()
}

#[test]
fn ranking_is_descending_and_stable() {
    let scores = vec![bits(0.5), bits(0.9), bits(0.5), bits(-0.2), bits(0.9)];
    assert_eq!(rank_order(&scores), Ok(vec![1, 4, 0, 2, 3]));
}

#[test]
fn ranking_orders_negative_scores_and_zeros() {
    let scores = vec![bits(-1.0), bits(-0.0), bits(0.0), bits(-0.5), bits(f32::INFINITY)];
    assert_eq!(rank_order(&scores), Ok(vec![4, 1, 2, 3, 0]));
}

#[test]
fn ranking_fails_on_nan() {
    let scores = vec![bits(0.1), bits(f32::NAN), bits(0.3)];
    assert_eq!(rank_order(&scores), Err(RankError::NotANumber(1)));
}

#[test]
fn ranking_does_not_depend_on_input_order() {
    let ids = ["a", "b", "c", "d"];
    let scores = [0.3f32, 0.8, 0.1, 0.5];
    let ranked = |order: &[usize]| -> Vec<(&str, u32)> {
        let s: Vec<u32> = order.iter().map(|&k| bits(scores[k])).collect();
        rank_order(&s).unwrap().iter().map(|&k| (ids[order[k]], s[k])).collect()
    };
    let first = ranked(&[0, 1, 2, 3]);
    let shuffled = ranked(&[2, 0, 3, 1]);
    assert_eq!(first, shuffled);
    assert_eq!(first.iter().map(|p| p.0).collect::<Vec<_>>(), vec!["b", "d", "a", "c"]);
}

fn note(title: &str, path: &str, text: &str) -> Note {
    Note { title: title.to_string(), path: path.to_string(), text_content: text.to_string() }
}

#[test]
fn unlinked_pairs_end_to_end() {
    let notes = vec![note("A", "A.md", "links to [[B]]"), note("B", "B.md", ""), note("C", "C.md", "")];
    let paths: Vec<String> = notes.iter().map(|n| n.path.clone()).collect();
    let graph = LinkGraph::from_notes(&notes, &[]);
    let candidates = unlinked_candidates(&paths, &graph, &[]);
    assert_eq!(candidates, vec![(0, 2), (1, 2)]);
    let similarity = |i: usize, j: usize| -> f32 {
        match (i, j) {
            (0, 1) => 0.99,
            (0, 2) => 0.95,
            _ => 0.5,
        }
    };
    let scores: Vec<u32> = candidates.iter().map(|&(i, j)| bits(similarity(i, j))).collect();
    let pairs = select_unlinked(&paths, &candidates, &scores, bits(0.9));
    assert_eq!(pairs.len(), 1);
    assert_eq!(pairs[0].path_a, "A.md");
    assert_eq!(pairs[0].path_b, "C.md");
    assert_eq!(f32::from_bits(pairs[0].similarity), 0.95);
}

#[test]
fn unlinked_pairs_sorted_most_similar_first() {
    let paths: Vec<String> = vec!["a.md".into(), "b.md".into(), "c.md".into(), "x/d.md".into()];
    let graph = LinkGraph::new();
    let excludes = vec!["x".to_string()];
    let candidates = unlinked_candidates(&paths, &graph, &excludes);
    assert_eq!(candidates, vec![(0, 1), (0, 2), (1, 2)]);
    let scores = vec![bits(0.91), bits(0.97), bits(f32::NAN)];
    let pairs = select_unlinked(&paths, &candidates, &scores, bits(0.9));
    let got: Vec<(&str, &str)> = pairs.iter().map(|p| (p.path_a.as_str(), p.path_b.as_str())).collect();
    assert_eq!(got, vec![("a.md", "c.md"), ("a.md", "b.md")]);
}

#[test]
fn threshold_is_inclusive() {
    let paths: Vec<String> = vec!["a.md".into(), "b.md".into()];
    let candidates = vec![(0, 1)];
    let pairs = select_unlinked(&paths, &candidates, &vec![bits(0.9)], bits(0.9));
    assert_eq!(pairs.len(), 1);
    let none = select_unlinked(&paths, &candidates, &vec![bits(0.89)], bits(0.9));
    assert!(none.is_empty());
}

#[test]
fn report_lines_use_titles_or_paths() {
    assert_eq!(note_title("dir/Meeting Notes.md"), "Meeting Notes");
    assert_eq!(note_title("archive.tar.gz"), "archive.tar");
    assert_eq!(note_title("dir/.hidden"), ".hidden");
    assert_eq!(report_line("a/Alpha.md", "b/Beta.md", 95), "- [[Alpha]] <-> [[Beta]] (95%)\n");
    assert_eq!(report_line("a/Same.md", "b/Same.md", 100), "- [[a/Same.md]] <-> [[b/Same.md]] (100%)\n");
    assert_eq!(report_line("x.md", "y.md", 0), "- [[x]] <-> [[y]] (0%)\n");
    assert_eq!(
        report_header(12, 85),
        "# Unlinked but similar note pairs\n\nFound 12 unlinked similar note pairs (similarity > 85%)\n\n"
    );
}

use embeddings::graph::{is_excluded, resolve_link, LinkGraph, PathPair, PathSet, TitleIndex};
use embeddings::note::Note;
use embeddings::wikilink::parse_wikilinks;

#[test]
fn simple_wikilink() {
    assert_eq!(parse_wikilinks("See [[Meeting Notes]] for details"), vec!["Meeting Notes"]);
}

#[test]
fn wikilink_with_alias() {
    assert_eq!(
        parse_wikilinks("Check [[vault/projects/this doc.md|Project Alpha]]"),
        vec!["vault/projects/this doc.md"]
    );
}

#[test]
fn multiple_wikilinks() {
    let links = parse_wikilinks("Related: [[A]] and [[B]]");
    assert_eq!(links, vec!["A", "B"]);
}

#[test]
fn no_wikilinks() {
    assert!(parse_wikilinks("No links here").is_empty());
}

#[test]
fn self_link_ignored() {
    let mut graph = LinkGraph::new();
    graph.add_link("a.md", "a.md");
    assert!(graph.all_linked_pairs().is_empty());
}

#[test]
fn all_linked_pairs_returns_hashset() {
    let mut graph = LinkGraph::new();
    graph.add_link("a.md", "b.md");
    graph.add_link("a.md", "c.md");
    let pairs = graph.all_linked_pairs();
    assert_eq!(pairs.len(), 2);
    assert!(pairs.contains(&PathPair::new("a.md", "b.md")));
    assert!(pairs.contains(&PathPair::new("a.md", "c.md")));
}

#[test]
fn path_pair_canonical_ordering() {
    let a = "a.md";
    let b = "b.md";
    let pair_ab = PathPair::new(a, b);
    let pair_ba = PathPair::new(b, a);
    assert_eq!(pair_ab, pair_ba);
}

#[test]
fn is_excluded_directory_prefix() {
    let path = "/Notes/Archive/2024-01.md";
    let excludes = vec!["/Notes/Archive".to_string()];
    assert!(is_excluded(path, &excludes));
}

#[test]
fn is_excluded_does_not_match_similar() {
    let path = "/Notes/Archive-test/2024-01.md";
    let excludes = vec!["/Notes/Archive".to_string()];
    assert!(!is_excluded(path, &excludes));
}

fn path_set(paths: &[&str]) -> PathSet {
    let mut set = PathSet::new();
    for p in paths {
        set.insert(p.to_string());
    }
    set
}

#[test]
fn resolve_link_exact_path() {
    let all_paths = path_set(&["Projects/App.md", "Archive/Old.md"]);
    let title_to_path = TitleIndex::new();
    let result = resolve_link("Projects/App.md", &all_paths, &title_to_path);
    assert_eq!(result, Some("Projects/App.md".to_string()));
}

#[test]
fn resolve_link_title_match() {
    let all_paths = path_set(&["Projects/App.md", "Archive/Old.md"]);
    let mut title_to_path = TitleIndex::new();
    title_to_path.insert("App".to_string(), "Projects/App.md".to_string());
    let result = resolve_link("App", &all_paths, &title_to_path);
    assert_eq!(result, Some("Projects/App.md".to_string()));
}

#[test]
fn resolve_link_not_found() {
    let all_paths = path_set(&["Projects/App.md"]);
    let title_to_path = TitleIndex::new();
    let result = resolve_link("Nonexistent", &all_paths, &title_to_path);
    assert!(result.is_none());
}

#[test]
fn resolve_link_path_before_title() {
    let all_paths = path_set(&["Work/Meeting Notes.md"]);
    let mut title_to_path = TitleIndex::new();
    title_to_path.insert("Meeting Notes".to_string(), "Personal/Meeting Notes.md".to_string());
    let result = resolve_link("Work/Meeting Notes.md", &all_paths, &title_to_path);
    assert_eq!(result, Some("Work/Meeting Notes.md".to_string()));
}

fn note(title: &str, path: &str, text: &str) -> Note {
    Note { title: title.to_string(), path: path.to_string(), text_content: text.to_string() }
}

#[test]
fn wikilinks_keep_duplicates_and_skip_malformed() {
    let links = parse_wikilinks("[[A]] [[A|x]] [[B [[|C]] [[D|]] [[]] [[E]");
    assert_eq!(links, vec!["A", "A", "B [["]);
}

#[test]
fn from_notes_resolves_titles_and_paths() {
    let notes = vec![
        note("a", "a.md", "see [[b]] and [[dir/c.md|the c note]] and [[missing]]"),
        note("b", "b.md", "back to [[a]] and to myself [[b]]"),
        note("c", "dir/c.md", "nothing"),
    ];
    let graph = LinkGraph::from_notes(&notes, &[]);
    let pairs = graph.all_linked_pairs();
    assert_eq!(pairs.len(), 2);
    assert!(pairs.contains(&PathPair::new("a.md", "b.md")));
    assert!(pairs.contains(&PathPair::new("a.md", "dir/c.md")));
    assert!(graph.is_linked("b.md", "a.md"));
    assert!(!graph.is_linked("b.md", "dir/c.md"));
}

#[test]
fn from_notes_skips_excluded_notes() {
    let notes = vec![
        note("a", "a.md", "see [[b]] and [[c]]"),
        note("b", "Archive/b.md", "see [[a]]"),
        note("c", "c.md", ""),
    ];
    let excludes = vec!["Archive".to_string()];
    let graph = LinkGraph::from_notes(&notes, &excludes);
    let pairs = graph.all_linked_pairs();
    assert_eq!(pairs, vec![PathPair::new("a.md", "c.md")]);
}

#[test]
fn graph_of_self_references_is_empty() {
    let notes = vec![note("a", "a.md", "[[a]] [[a.md]]"), note("b", "b.md", "[[b]]")];
    let graph = LinkGraph::from_notes(&notes, &[]);
    assert!(graph.all_linked_pairs().is_empty());
}

#[test]
fn canonical_pair_puts_smaller_path_first() {
    let pair = PathPair::new("z.md", "a.md");
    assert_eq!(pair.first(), "a.md");
    assert_eq!(pair.second(), "z.md");
}

#[test]
fn exclusion_covers_exact_path_and_trailing_slash() {
    let excludes = vec!["/Notes/Templates/".to_string()];
    assert!(is_excluded("/Notes/Templates/daily.md", &excludes));
    assert!(is_excluded("/Notes/Templates", &vec!["/Notes/Templates".to_string()]));
    assert!(!is_excluded("/Notes/Templates2/x.md", &vec!["/Notes/Templates".to_string()]));
}

//! Settings of the note-similarity tools.

use vstd::prelude::*;
use crate::graph::{is_under, path_starts_with};

verus! {

/// Where the notes and the embedding store are, the provider key, and the
/// plot colour of each folder (folder prefix and colour, in order).
pub struct Config {
    pub api_key: String,
    pub notes_root: String,
    pub vault: String,
    pub embedding_path: String,
    pub plot_colors: Vec<(String, String)>,
}

/// The colour of the first folder entry that covers the path, or "gray".
pub open spec fn color_for(path: Seq<char>, colors: Seq<(String, String)>) -> Seq<char>
    decreases colors.len(),
{
    if colors.len() == 0 {
        "gray"@
    } else if is_under(path, colors[0].0@) {
        colors[0].1@
    } else {
        color_for(path, colors.drop_first())
    }
}

/// The plot colour of a note path.
pub fn path_to_color(path: &str, color_map: &Vec<(String, String)>) -> (r: String)
    ensures
        r@ == color_for(path@, color_map@),
{
    let mut i: usize = 0;
    assert(color_map@.skip(0) =~= color_map@);
    while i < color_map.len()
        invariant
            i <= color_map@.len(),
            color_for(path@, color_map@) == color_for(path@, color_map@.skip(i as int)),
        decreases color_map.len() - i,
    {
        assert(color_map@.skip(i as int)[0] == color_map@[i as int]);
        assert(color_map@.skip(i as int).drop_first() =~= color_map@.skip(i + 1));
        if path_starts_with(path, color_map[i].0.as_str()) {
            return color_map[i].1.clone();
        }
        i += 1;
    }
    proof {
        reveal_strlit("gray");
    }
    "gray".to_owned()
}

} // verus!

//! Rendering of an aggregated story as one release-note line.

use vstd::prelude::*;

use crate::types::{Story, StoryView};

verus! {

/// The line printed for one story.
pub open spec fn line_spec(s: StoryView) -> Seq<char> {
    "- "@ + s.name + " [details]("@ + s.url + ")"@
}

/// Renders one story as its release-note line, a Markdown bullet naming the
/// story and linking its canonical URL.
pub fn format_story_line(story: &Story) -> (r: String)
    ensures
        r@ == line_spec(story@),
{
    let mut r = String::from_str("- ");
    r.append(story.name.as_str());
    r.append(" [details](");
    r.append(story.url.as_str());
    r.append(")");
    proof {
        assert(r@ =~= line_spec(story@));
    }
    r
}

} // verus!

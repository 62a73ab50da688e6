//! The records kept in the tool's database, as its queries hand them back or
//! take them, and the text added to a group's description from its profile.
use vstd::prelude::*;

use crate::text::{join, views};

verus! {

/// A group in the activity listing.
pub struct GroupRow {
    pub id: i64,
    pub name: String,
    pub victim_count: i64,
    pub last_activity: String,
    pub dls_count: i64,
    pub note_count: i64,
    pub has_tox: bool,
    pub has_telegram: bool,
    pub has_jabber: bool,
    pub has_pgp: bool,
}

/// A group's stored profile.
pub struct GroupDetail {
    pub name: String,
    pub tox: Option<String>,
    pub telegram: Option<String>,
    pub jabber: Option<String>,
    pub pgp: Option<String>,
    pub description: Option<String>,
    /// The tools as JSON text.
    pub tools: Option<String>,
    /// The TTPs as JSON text.
    pub ttps: Option<String>,
}

/// A site of a group.
pub struct LocationRow {
    pub loc_type: String,
    pub slug: String,
    pub title: Option<String>,
    pub available: bool,
    pub last_checked_at: Option<String>,
}

/// A ransom note of a group.
pub struct RansomNoteRow {
    pub filename: String,
    pub file_type: String,
    pub url: String,
}

/// A ransom note in the notes listing, with its group.
pub struct NoteWithGroup {
    pub group_id: i64,
    pub group_name: String,
    pub url: String,
}

/// A victim in the victims listing.
pub struct VictimRow {
    pub id: i64,
    pub name: String,
    pub group_name: String,
    pub country: String,
    pub discovered_at: String,
}

/// A victim's stored record.
pub struct VictimDetail {
    pub name: String,
    pub group_name: String,
    pub country: Option<String>,
    pub activity: Option<String>,
    pub description: Option<String>,
    pub post_url: Option<String>,
    pub website: Option<String>,
    pub discovered_at: Option<String>,
}

/// The number of victims of a country and the day the latest was discovered.
pub struct CountryCount {
    pub country: String,
    pub count: i64,
    pub last_discovered: String,
}

/// The fields of a victim to be stored.
pub struct VictimData<'a> {
    pub name: Option<&'a str>,
    pub country: Option<&'a str>,
    pub activity: Option<&'a str>,
    pub description: Option<&'a str>,
    pub post_url: Option<&'a str>,
    pub website: Option<&'a str>,
    pub screenshot: Option<&'a str>,
    pub data_size: Option<&'a str>,
    pub ransom: Option<&'a str>,
    pub discovered: Option<&'a str>,
    pub published: Option<&'a str>,
}

/// A recent victim shown in a group's profile.
pub struct VictimSummary {
    pub name: String,
    pub country: Option<String>,
    pub discovered_at: Option<String>,
}

/// The bullet items `- url` of a profile's reference links.
pub open spec fn reference_items(profile: Seq<Seq<char>>) -> Seq<Seq<char>> {
    profile.map_values(|u: Seq<char>| "- "@ + u)
}

/// The references section appended to a group's description: a blank line,
/// a `## References` heading, then one `- url` line per link.
pub open spec fn references_text(profile: Seq<Seq<char>>) -> Seq<char> {
    "\n\n## References\n"@ + join(reference_items(profile), "\n"@)
}

/// The references section appended to a group's description.
pub fn references_section(profile: &[String]) -> (r: String)
    ensures
        r@ == references_text(views(profile@)),
{
    let mut items: Vec<String> = Vec::new();
    let n = profile.len();
    let mut i: usize = 0;
    while i < n
        invariant
            i <= n,
            n == profile@.len(),
            views(items@) == reference_items(views(profile@.take(i as int))),
        decreases n - i,
    {
        let mut item = "- ".to_owned();
        item.append(profile[i].as_str());
        let ghost before = items@;
        items.push(item);
        proof {
            assert(views(items@) =~= views(before).push(item@));
            assert(reference_items(views(profile@.take(i + 1))) =~= reference_items(
                views(profile@.take(i as int)),
            ).push("- "@ + profile@[i as int]@));
        }
        i = i + 1;
    }
    proof {
        assert(profile@.take(n as int) =~= profile@);
    }
    let body = crate::text::join_strings(&items, "\n");
    let mut r = "\n\n## References\n".to_owned();
    r.append(body.as_str());
    r
}

/// The references section lists the links in order, one `- url` line each,
/// under the heading: one more link adds one more line at the end.
pub proof fn lemma_references_lines(profile: Seq<Seq<char>>, u: Seq<char>)
    ensures
        references_text(seq![u]) == "\n\n## References\n"@ + "- "@ + u,
        profile.len() > 0 ==> references_text(profile.push(u)) == references_text(profile) + "\n"@
            + "- "@ + u,
{
    assert(reference_items(seq![u]) =~= seq!["- "@ + u]);
    if profile.len() > 0 {
        let items = reference_items(profile.push(u));
        assert(items.drop_last() =~= reference_items(profile));
        assert(items.last() == "- "@ + u);
        assert(references_text(profile.push(u)) =~= references_text(profile) + "\n"@ + "- "@ + u);
    }
}

} // verus!

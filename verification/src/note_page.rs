//! Reading ransom-note links out of the tracker's ransom-note index page.
//!
//! A link has the shape `href="/ransomnote/GROUP/FILE"`: GROUP is one or more
//! characters other than `/`, FILE one or more characters other than `"`.
//! Links are taken left to right without overlaps, as a regular-expression
//! search for that shape finds them.
use vstd::prelude::*;

use crate::sync::RansomNote;
use crate::text::{chars_of, occurs_at, opt_view, string_from_chars};

verus! {

// ---------------------------------------------------------------------
// The link grammar
// ---------------------------------------------------------------------

/// The text that opens a ransom-note link.
pub open spec fn link_prefix() -> Seq<char> {
    "href=\"/ransomnote/"@
}

/// The first index at or after `from` that holds `c`, or `s.len()` if there is none.
pub open spec fn find_char(s: Seq<char>, c: char, from: int) -> int
    decreases s.len() - from,
{
    if from < 0 || from >= s.len() {
        s.len() as int
    } else if s[from] == c {
        from
    } else {
        find_char(s, c, from + 1)
    }
}

/// A link starting at `i`: the index of the `/` that ends the group name and
/// the index of the `"` that ends the file name.
pub open spec fn link_at(s: Seq<char>, i: int) -> Option<(int, int)> {
    let a = i + link_prefix().len();
    if occurs_at(s, link_prefix(), i) {
        let b = find_char(s, '/', a);
        if a < b && b < s.len() {
            let q = find_char(s, '"', b + 1);
            if b + 1 < q && q < s.len() {
                Some((b, q))
            } else {
                None
            }
        } else {
            None
        }
    } else {
        None
    }
}

/// The (group name, encoded file name) pairs of the links in `s` found by a
/// left-to-right scan from index `i`.
pub open spec fn note_links(s: Seq<char>, i: int) -> Seq<(Seq<char>, Seq<char>)>
    decreases s.len() - i,
{
    if i < 0 || i >= s.len() {
        Seq::empty()
    } else {
        match link_at(s, i) {
            Some((b, q)) => {
                // a link always ends after it starts; the test only keeps the
                // recursion visibly well founded
                if i < q {
                    seq![(s.subrange(i + link_prefix().len(), b), s.subrange(b + 1, q))]
                        + note_links(s, q + 1)
                } else {
                    Seq::empty()
                }
            },
            None => note_links(s, i + 1),
        }
    }
}

/// The views of a sequence of string pairs.
pub open spec fn pair_views(v: Seq<(String, String)>) -> Seq<(Seq<char>, Seq<char>)> {
    v.map_values(|p: (String, String)| (p.0@, p.1@))
}

proof fn lemma_find_char(s: Seq<char>, c: char, from: int)
    requires
        0 <= from <= s.len(),
    ensures
        from <= find_char(s, c, from) <= s.len(),
        find_char(s, c, from) < s.len() ==> s[find_char(s, c, from)] == c,
        forall|t: int| from <= t < find_char(s, c, from) ==> s[t] != c,
    decreases s.len() - from,
{
    if from < s.len() && s[from] != c {
        lemma_find_char(s, c, from + 1);
    }
}

fn find_char_from(cs: &Vec<char>, c: char, from: usize) -> (j: usize)
    requires
        from <= cs@.len(),
    ensures
        j == find_char(cs@, c, from as int),
{
    let n = cs.len();
    let mut k = from;
    while k < n && cs[k] != c
        invariant
            from <= k <= n,
            n == cs@.len(),
            find_char(cs@, c, from as int) == find_char(cs@, c, k as int),
        decreases n - k,
    {
        k = k + 1;
    }
    k
}

/// The characters of a link body never hold the character that ends them.
proof fn lemma_note_links_shape(s: Seq<char>, i: int)
    requires
        0 <= i,
    ensures
        forall|k: int|
            0 <= k < note_links(s, i).len() ==> {
                let (g, f) = #[trigger] note_links(s, i)[k];
                &&& g.len() > 0
                &&& !g.contains('/')
                &&& f.len() > 0
                &&& !f.contains('"')
            },
    decreases s.len() - i,
{
    if i < s.len() {
        match link_at(s, i) {
            Some((b, q)) => {
                if i < q {
                    let a = i + link_prefix().len();
                    lemma_find_char(s, '/', a);
                    lemma_find_char(s, '"', b + 1);
                    lemma_note_links_shape(s, q + 1);
                    let g = s.subrange(a, b);
                    let f = s.subrange(b + 1, q);
                    assert(!g.contains('/')) by {
                        if g.contains('/') {
                            let t = choose|t: int| 0 <= t < g.len() && g[t] == '/';
                            assert(s[a + t] == '/');
                        }
                    }
                    assert(!f.contains('"')) by {
                        if f.contains('"') {
                            let t = choose|t: int| 0 <= t < f.len() && f[t] == '"';
                            assert(s[b + 1 + t] == '"');
                        }
                    }
                    let head = seq![(g, f)];
                    let tail = note_links(s, q + 1);
                    assert(note_links(s, i) == head + tail);
                    assert forall|k: int| 0 <= k < note_links(s, i).len() implies {
                        let (g2, f2) = #[trigger] note_links(s, i)[k];
                        &&& g2.len() > 0
                        &&& !g2.contains('/')
                        &&& f2.len() > 0
                        &&& !f2.contains('"')
                    } by {
                        if k > 0 {
                            assert(note_links(s, i)[k] == tail[k - 1]);
                        } else {
                            assert(note_links(s, i)[k] == (g, f));
                        }
                    }
                }
            },
            None => {
                lemma_note_links_shape(s, i + 1);
                assert(note_links(s, i) == note_links(s, i + 1));
            },
        }
    }
}

/// Finds the ransom-note links of a page, as (group name, encoded file name) pairs.
pub fn find_note_links(html: &str) -> (r: Vec<(String, String)>)
    ensures
        pair_views(r@) == note_links(html@, 0),
        forall|k: int|
            0 <= k < r@.len() ==> {
                &&& (#[trigger] r@[k]).0@.len() > 0
                &&& !r@[k].0@.contains('/')
                &&& r@[k].1@.len() > 0
                &&& !r@[k].1@.contains('"')
            },
{
    let cs = chars_of(html);
    let ps = chars_of("href=\"/ransomnote/");
    let n = cs.len();
    let m = ps.len();
    let mut out: Vec<(String, String)> = Vec::new();
    let mut i: usize = 0;
    while i < n
        invariant
            i <= n,
            n == cs@.len(),
            cs@ == html@,
            ps@ == link_prefix(),
            m == ps@.len(),
            pair_views(out@) + note_links(cs@, i as int) == note_links(cs@, 0),
        decreases n - i,
    {
        let ghost s = cs@;
        let mut step: usize = 1;
        if crate::text::pattern_at(&cs, &ps, i) {
            let a = i + m;
            let b = find_char_from(&cs, '/', a);
            if a < b && b < n {
                let q = find_char_from(&cs, '"', b + 1);
                if b + 1 < q && q < n {
                    let g = string_from_chars(&cs.as_slice()[a..b]);
                    let f = string_from_chars(&cs.as_slice()[b + 1..q]);
                    proof {
                        assert(link_at(s, i as int) == Some((b as int, q as int)));
                        assert(pair_views(out@.push((g, f))) =~= pair_views(out@).push(
                            (s.subrange(a as int, b as int), s.subrange(b + 1, q as int)),
                        ));
                    }
                    out.push((g, f));
                    step = q + 1 - i;
                }
            }
        }
        proof {
            if step == 1 {
                assert(link_at(s, i as int).is_none());
            }
        }
        i = i + step;
    }
    proof {
        assert(pair_views(out@) =~= note_links(cs@, 0));
        lemma_note_links_shape(cs@, 0);
        assert forall|k: int| 0 <= k < out@.len() implies {
            &&& (#[trigger] out@[k]).0@.len() > 0
            &&& !out@[k].0@.contains('/')
            &&& out@[k].1@.len() > 0
            &&& !out@[k].1@.contains('"')
        } by {
            assert(pair_views(out@)[k] == (out@[k].0@, out@[k].1@));
        }
    }
    out
}

// ---------------------------------------------------------------------
// Percent-decoding of file names
// ---------------------------------------------------------------------

/// What `urlencoding::decode` gives back for a text: the percent-decoded
/// text, or nothing when the decoded bytes are not UTF-8.
pub uninterp spec fn percent_decoded(s: Seq<char>) -> Option<Seq<char>>;

/// Calls `urlencoding::decode`. Its result is named by `percent_decoded`; as the
/// crate's source shows, a text without `%` comes back unchanged.
#[verifier::external_body]
fn url_decode(s: &str) -> (r: Option<String>)
    ensures
        match r {
            Some(t) => percent_decoded(s@) == Some(t@),
            None => percent_decoded(s@).is_none(),
        },
        !s@.contains('%') ==> (r.is_some() && r.unwrap()@ == s@),
{
    match urlencoding::decode(s) {
        Ok(t) => Some(t.into_owned()),
        Err(_) => None,
    }
}

// ---------------------------------------------------------------------
// Notes
// ---------------------------------------------------------------------

/// Whether `s` ends with `t`.
pub open spec fn ends_with(s: Seq<char>, t: Seq<char>) -> bool {
    t.len() <= s.len() && s.skip(s.len() - t.len()) == t
}

/// The file name shown for an encoded name: its percent-decoding, or the
/// encoded name itself when that does not decode.
pub open spec fn shown_file_name(encoded: Seq<char>) -> Seq<char> {
    match percent_decoded(encoded) {
        Some(d) => d,
        None => encoded,
    }
}

/// The kind of a note file, told by its extension.
pub open spec fn file_type_of(name: Seq<char>) -> Seq<char> {
    if ends_with(name, ".txt"@) {
        "txt"@
    } else if ends_with(name, ".html"@) {
        "html"@
    } else if ends_with(name, ".hta"@) {
        "hta"@
    } else {
        "unknown"@
    }
}

/// Where a note can be read on the tracker's site.
pub open spec fn note_url(group: Seq<char>, encoded: Seq<char>) -> Seq<char> {
    "https://www.ransomware.live/ransomnote/"@ + group + "/"@ + encoded
}

/// The note record made from one link.
pub open spec fn note_from_link(group: Seq<char>, encoded: Seq<char>, note: RansomNote) -> bool {
    &&& note.group_name@ == group
    &&& note.filename@ == shown_file_name(encoded)
    &&& note.file_type@ == file_type_of(shown_file_name(encoded))
    &&& note.url@ == note_url(group, encoded)
}

/// A note record made from a link names the link's group, shows the link's file
/// name decoded (as it is when it does not decode), tells its kind by that
/// name's extension, and points at the link's group and encoded file name on
/// the tracker's site.
pub proof fn lemma_note_fields(group: Seq<char>, encoded: Seq<char>, note: RansomNote)
    requires
        note_from_link(group, encoded, note),
    ensures
        note.group_name@ == group,
        note.url@ == "https://www.ransomware.live/ransomnote/"@ + group + "/"@ + encoded,
        note.filename@ == match percent_decoded(encoded) {
            Some(d) => d,
            None => encoded,
        },
        ends_with(note.filename@, ".txt"@) ==> note.file_type@ == "txt"@,
        !ends_with(note.filename@, ".txt"@) && ends_with(note.filename@, ".html"@)
            ==> note.file_type@ == "html"@,
        !ends_with(note.filename@, ".txt"@) && !ends_with(note.filename@, ".html"@) && ends_with(
            note.filename@,
            ".hta"@,
        ) ==> note.file_type@ == "hta"@,
        !ends_with(note.filename@, ".txt"@) && !ends_with(note.filename@, ".html"@) && !ends_with(
            note.filename@,
            ".hta"@,
        ) ==> note.file_type@ == "unknown"@,
{
}

fn ends_with_str(s: &str, t: &str) -> (b: bool)
    ensures
        b == ends_with(s@, t@),
{
    let cs = chars_of(s);
    let ts = chars_of(t);
    if ts.len() > cs.len() {
        return false;
    }
    let start = cs.len() - ts.len();
    let r = crate::text::pattern_at(&cs, &ts, start);
    proof {
        assert(cs@.subrange(start as int, start + ts@.len()) =~= cs@.skip(start as int));
    }
    r
}

/// The kind of a note file, told by its extension.
pub fn file_type(name: &str) -> (r: String)
    ensures
        r@ == file_type_of(name@),
{
    if ends_with_str(name, ".txt") {
        "txt".to_owned()
    } else if ends_with_str(name, ".html") {
        "html".to_owned()
    } else if ends_with_str(name, ".hta") {
        "hta".to_owned()
    } else {
        "unknown".to_owned()
    }
}

/// Makes the note record for one link, given what percent-decoding its file
/// name gave back: the decoded name, or nothing when it did not decode. When
/// that is what `urlencoding::decode` gives for the name, the record is the
/// one the link stands for.
pub fn note_from_decoded(group: &str, encoded: &str, decoded: Option<String>) -> (r: RansomNote)
    ensures
        r.group_name@ == group@,
        r.filename@ == match decoded {
            Some(d) => d@,
            None => encoded@,
        },
        r.file_type@ == file_type_of(r.filename@),
        r.url@ == note_url(group@, encoded@),
        opt_view(decoded) == percent_decoded(encoded@) ==> note_from_link(group@, encoded@, r),
{
    let filename = match decoded {
        Some(d) => d,
        None => encoded.to_owned(),
    };
    let file_type = file_type(filename.as_str());
    let mut url = "https://www.ransomware.live/ransomnote/".to_owned();
    url.append(group);
    url.append("/");
    url.append(encoded);
    RansomNote { group_name: group.to_owned(), filename, file_type, url }
}

/// Makes the note record for one link found on the page.
pub fn note_from_parts(group: &str, encoded: &str) -> (r: RansomNote)
    ensures
        note_from_link(group@, encoded@, r),
        !encoded@.contains('%') ==> r.filename@ == encoded@,
{
    let decoded = url_decode(encoded);
    note_from_decoded(group, encoded, decoded)
}

/// Reads every ransom-note link of the tracker's index page, left to right,
/// into note records.
pub fn parse_ransom_notes_html(html: &str) -> (r: Result<Vec<RansomNote>, String>)
    ensures
        r.is_ok(),
        r.unwrap()@.len() == note_links(html@, 0).len(),
        forall|k: int|
            0 <= k < note_links(html@, 0).len() ==> note_from_link(
                (#[trigger] note_links(html@, 0)[k]).0,
                note_links(html@, 0)[k].1,
                r.unwrap()@[k],
            ),
        forall|k: int|
            0 <= k < note_links(html@, 0).len() && !(#[trigger] note_links(html@, 0)[k]).1.contains(
                '%',
            ) ==> r.unwrap()@[k].filename@ == note_links(html@, 0)[k].1,
{
    let links = find_note_links(html);
    let mut notes: Vec<RansomNote> = Vec::new();
    let n = links.len();
    for i in 0..n
        invariant
            n == links@.len(),
            pair_views(links@) == note_links(html@, 0),
            notes@.len() == i,
            forall|k: int|
                0 <= k < i ==> note_from_link(
                    (#[trigger] links@[k]).0@,
                    links@[k].1@,
                    notes@[k],
                ),
            forall|k: int|
                0 <= k < i && !(#[trigger] links@[k]).1@.contains('%') ==> notes@[k].filename@
                    == links@[k].1@,
    {
        let note = note_from_parts(links[i].0.as_str(), links[i].1.as_str());
        notes.push(note);
    }
    proof {
        assert forall|k: int| 0 <= k < note_links(html@, 0).len() implies note_from_link(
            (#[trigger] note_links(html@, 0)[k]).0,
            note_links(html@, 0)[k].1,
            notes@[k],
        ) by {
            assert(pair_views(links@)[k] == (links@[k].0@, links@[k].1@));
            assert(note_from_link(links@[k].0@, links@[k].1@, notes@[k]));
        }
        assert forall|k: int|
            0 <= k < note_links(html@, 0).len() && !(#[trigger] note_links(html@, 0)[k]).1.contains(
                '%',
            ) implies notes@[k].filename@ == note_links(html@, 0)[k].1 by {
            assert(pair_views(links@)[k] == (links@[k].0@, links@[k].1@));
        }
    }
    Ok(notes)
}

} // verus!

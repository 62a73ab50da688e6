//! The reports: listing tables and the markdown profiles of a group and of a
//! victim, filled into templates whose `{{placeholders}}` are replaced in turn.
use vstd::prelude::*;
use vstd::string::StringSliceAdditionalSpecFns;
use vstd::utf8::{decode_utf8, encode_utf8};

use crate::db::{
    CountryCount, GroupDetail, GroupRow, LocationRow, NoteWithGroup, RansomNoteRow, VictimDetail,
    VictimRow, VictimSummary,
};
use crate::profile::{tools_text, tools_text_of, ttps_text, ttps_text_of};
use crate::table::{
    cell, col_views, column_text, format_table, lemma_table_columns, row_views, table_lines,
    table_width,
};
use crate::text::{
    spec_truncate, decimal, i64_to_string, int_text, join, join_strings, opt_view, replace_all, replace_all_str,
    usize_to_string, views,
};

verus! {

// ---------------------------------------------------------------------
// Templates
// ---------------------------------------------------------------------

/// The views of a list of (placeholder, value) pairs.
pub open spec fn sub_views(subs: Seq<(String, String)>) -> Seq<(Seq<char>, Seq<char>)> {
    subs.map_values(|p: (String, String)| (p.0@, p.1@))
}

/// The template with each placeholder replaced by its value, one
/// placeholder after the other (a value may itself hold a later placeholder).
pub open spec fn substitute_all(t: Seq<char>, subs: Seq<(Seq<char>, Seq<char>)>) -> Seq<char>
    decreases subs.len(),
{
    if subs.len() == 0 {
        t
    } else {
        replace_all(substitute_all(t, subs.drop_last()), subs.last().0, subs.last().1)
    }
}

/// Replaces the placeholders of a template in turn.
pub fn fill_template(template: &str, subs: &Vec<(String, String)>) -> (r: String)
    requires
        forall|i: int| 0 <= i < subs@.len() ==> (#[trigger] subs@[i]).0@.len() > 0,
    ensures
        r@ == substitute_all(template@, sub_views(subs@)),
{
    let mut out = template.to_owned();
    let n = subs.len();
    let mut i: usize = 0;
    while i < n
        invariant
            i <= n,
            n == subs@.len(),
            forall|j: int| 0 <= j < subs@.len() ==> (#[trigger] subs@[j]).0@.len() > 0,
            out@ == substitute_all(template@, sub_views(subs@.take(i as int))),
        decreases n - i,
    {
        proof {
            assert(sub_views(subs@.take(i + 1)).drop_last() =~= sub_views(subs@.take(i as int)));
            assert(sub_views(subs@.take(i + 1)).last() == (subs@[i as int].0@, subs@[i as int].1@));
            assert(subs@[i as int].0@.len() > 0);
        }
        out = replace_all_str(out.as_str(), subs[i].0.as_str(), subs[i].1.as_str());
        i = i + 1;
    }
    proof {
        assert(subs@.take(n as int) =~= subs@);
    }
    out
}

/// A template in which no placeholder occurs comes out unchanged.
pub proof fn lemma_template_without_placeholders(t: Seq<char>, subs: Seq<(Seq<char>, Seq<char>)>)
    requires
        forall|i: int| 0 <= i < subs.len() ==> (#[trigger] subs[i]).0.len() > 0,
        forall|i: int, j: int|
            0 <= i < subs.len() ==> !#[trigger] crate::text::occurs_at(t, subs[i].0, j),
    ensures
        substitute_all(t, subs) == t,
    decreases subs.len(),
{
    if subs.len() > 0 {
        let rest = subs.drop_last();
        assert forall|i: int| 0 <= i < rest.len() implies (#[trigger] rest[i]).0.len() > 0 by {
            assert(rest[i] == subs[i]);
        }
        assert forall|i: int, j: int| 0 <= i < rest.len() implies !#[trigger] crate::text::occurs_at(
            t,
            rest[i].0,
            j,
        ) by {
            assert(rest[i] == subs[i]);
            assert(!crate::text::occurs_at(t, subs[i].0, j));
        }
        lemma_template_without_placeholders(t, rest);
        let last = subs[subs.len() - 1];
        assert(subs.last() == last);
        assert forall|j: int| !#[trigger] crate::text::occurs_at(t, last.0, j) by {
            assert(!crate::text::occurs_at(t, subs[subs.len() - 1].0, j));
        }
        crate::text::lemma_replace_absent(t, last.0, last.1);
    }
}

/// Whether a text holds no brace.
pub open spec fn brace_free(s: Seq<char>) -> bool {
    forall|i: int| 0 <= i < s.len() ==> #[trigger] s[i] != '{' && s[i] != '}'
}

/// Whether a text has the shape of a placeholder: `{{`, a brace-free name, `}}`.
pub open spec fn is_placeholder(p: Seq<char>) -> bool {
    &&& p.len() >= 4
    &&& p[0] == '{'
    &&& p[1] == '{'
    &&& p[p.len() - 2] == '}'
    &&& p[p.len() - 1] == '}'
    &&& forall|i: int| 2 <= i < p.len() - 2 ==> #[trigger] p[i] != '{' && p[i] != '}'
}

proof fn lemma_brace_free_concat(a: Seq<char>, b: Seq<char>)
    requires
        brace_free(a),
        brace_free(b),
    ensures
        brace_free(a + b),
{
    assert forall|i: int| 0 <= i < (a + b).len() implies #[trigger] (a + b)[i] != '{' && (a
        + b)[i] != '}' by {
        if i < a.len() {
            assert((a + b)[i] == a[i]);
        } else {
            assert((a + b)[i] == b[i - a.len()]);
        }
    }
}

/// No placeholder occurs in a brace-free text.
proof fn lemma_no_placeholder_in_brace_free(s: Seq<char>, q: Seq<char>)
    requires
        brace_free(s),
        is_placeholder(q),
    ensures
        forall|i: int| !#[trigger] crate::text::occurs_at(s, q, i),
{
    assert forall|i: int| !#[trigger] crate::text::occurs_at(s, q, i) by {
        if crate::text::occurs_at(s, q, i) {
            assert(s.subrange(i, i + q.len())[0] == s[i]);
        }
    }
}

/// In a brace-free text around one placeholder, no other placeholder occurs.
proof fn lemma_other_placeholder_absent(a: Seq<char>, p: Seq<char>, b: Seq<char>, q: Seq<char>)
    requires
        brace_free(a),
        brace_free(b),
        is_placeholder(p),
        is_placeholder(q),
        p != q,
    ensures
        forall|i: int| !#[trigger] crate::text::occurs_at(a + p + b, q, i),
{
    let s = a + p + b;
    let la = a.len() as int;
    let lp = p.len() as int;
    assert forall|j: int| 0 <= j < s.len() implies #[trigger] s[j] == if j < la {
        a[j]
    } else if j < la + lp {
        p[j - la]
    } else {
        b[j - la - lp]
    } by {}
    assert forall|i: int| !#[trigger] crate::text::occurs_at(s, q, i) by {
        if crate::text::occurs_at(s, q, i) {
            let lq = q.len() as int;
            let w = s.subrange(i, i + lq);
            assert(w[0] == s[i] && w[1] == s[i + 1]);
            assert(w[lq - 2] == s[i + lq - 2] && w[lq - 1] == s[i + lq - 1]);
            // the two opening braces can only be those of `p`
            assert(la <= i < la + lp);
            assert(i - la == 0 || i - la == 1 || i - la >= lp - 2);
            assert(i == la);
            // and the two closing braces only those of `p`
            let e = i + lq - 1;
            assert(la <= e < la + lp);
            assert(e - la == lp - 1);
            assert(lq == lp);
            assert(w =~= p) by {
                assert forall|t: int| 0 <= t < lq implies w[t] == p[t] by {
                    assert(w[t] == s[i + t]);
                }
            }
        }
    }
}

/// Replacing a pattern that starts with a brace leaves a brace-free prefix
/// in place.
proof fn lemma_replace_after_prefix(a: Seq<char>, s: Seq<char>, p: Seq<char>, v: Seq<char>)
    requires
        brace_free(a),
        p.len() > 0,
        p[0] == '{',
    ensures
        replace_all(a + s, p, v) == a + replace_all(s, p, v),
    decreases a.len(),
{
    if a.len() == 0 {
        assert(a + s =~= s);
        assert(a + replace_all(s, p, v) =~= replace_all(s, p, v));
    } else {
        let t = a + s;
        let a1 = a.drop_first();
        assert(brace_free(a1)) by {
            assert forall|i: int| 0 <= i < a1.len() implies #[trigger] a1[i] != '{' && a1[i] != '}' by {
                assert(a1[i] == a[i + 1]);
            }
        }
        lemma_replace_after_prefix(a1, s, p, v);
        assert(t[0] == a[0]);
        if t.len() >= p.len() {
            assert(t.take(p.len() as int)[0] == t[0]);
            assert(t.take(p.len() as int) != p);
            assert(t.drop_first() =~= a1 + s);
            assert(a + replace_all(s, p, v) =~= seq![a[0]] + (a1 + replace_all(s, p, v)));
        } else {
            assert(s.len() < p.len());
            assert(t =~= a + s);
        }
    }
}

/// A placeholder between brace-free texts is replaced by its brace-free value.
proof fn lemma_replace_lone_placeholder(a: Seq<char>, p: Seq<char>, b: Seq<char>, v: Seq<char>)
    requires
        brace_free(a),
        brace_free(b),
        is_placeholder(p),
    ensures
        replace_all(a + p + b, p, v) == a + v + b,
{
    lemma_replace_after_prefix(a, p + b, p, v);
    assert(a + p + b =~= a + (p + b));
    assert((p + b).take(p.len() as int) =~= p);
    assert((p + b).skip(p.len() as int) =~= b);
    lemma_no_placeholder_in_brace_free(b, p);
    crate::text::lemma_replace_absent(b, p, v);
    assert(a + (v + b) =~= a + v + b);
}

/// A template made of brace-free text around one placeholder of a list of
/// distinct-enough placeholders comes out with that placeholder replaced by its
/// value, when the value holds no brace.
pub proof fn lemma_fill_lone_placeholder(
    a: Seq<char>,
    b: Seq<char>,
    subs: Seq<(Seq<char>, Seq<char>)>,
    k: int,
)
    requires
        brace_free(a),
        brace_free(b),
        0 <= k < subs.len(),
        forall|j: int| 0 <= j < subs.len() ==> is_placeholder(#[trigger] subs[j].0),
        forall|j: int| 0 <= j < k ==> (#[trigger] subs[j]).0 != subs[k].0,
        brace_free(subs[k].1),
    ensures
        substitute_all(a + subs[k].0 + b, subs) == a + subs[k].1 + b,
    decreases subs.len(),
{
    let t = a + subs[k].0 + b;
    let rest = subs.drop_last();
    if k == subs.len() - 1 {
        assert forall|i: int, j: int| 0 <= i < rest.len() implies !#[trigger] crate::text::occurs_at(
            t,
            rest[i].0,
            j,
        ) by {
            assert(rest[i] == subs[i]);
            assert(is_placeholder(subs[i].0));
            lemma_other_placeholder_absent(a, subs[k].0, b, rest[i].0);
        }
        assert forall|i: int| 0 <= i < rest.len() implies (#[trigger] rest[i]).0.len() > 0 by {
            assert(rest[i] == subs[i]);
            assert(is_placeholder(subs[i].0));
        }
        lemma_template_without_placeholders(t, rest);
        assert(subs.last() == subs[k]);
        lemma_replace_lone_placeholder(a, subs[k].0, b, subs[k].1);
    } else {
        assert forall|j: int| 0 <= j < rest.len() implies is_placeholder(#[trigger] rest[j].0) by {
            assert(rest[j] == subs[j]);
        }
        assert forall|j: int| 0 <= j < k implies (#[trigger] rest[j]).0 != rest[k].0 by {
            assert(rest[j] == subs[j]);
        }
        assert(rest[k] == subs[k]);
        lemma_fill_lone_placeholder(a, b, rest, k);
        let u = a + subs[k].1 + b;
        lemma_brace_free_concat(a, subs[k].1);
        lemma_brace_free_concat(a + subs[k].1, b);
        assert(is_placeholder(subs[subs.len() - 1].0));
        lemma_no_placeholder_in_brace_free(u, subs.last().0);
        crate::text::lemma_replace_absent(u, subs.last().0, subs.last().1);
    }
}

fn push_sub(subs: &mut Vec<(String, String)>, pat: &str, val: String)
    requires
        pat@.len() > 0,
        forall|i: int| 0 <= i < old(subs)@.len() ==> (#[trigger] old(subs)@[i]).0@.len() > 0,
    ensures
        sub_views(final(subs)@) == sub_views(old(subs)@).push((pat@, val@)),
        forall|i: int| 0 <= i < final(subs)@.len() ==> (#[trigger] final(subs)@[i]).0@.len() > 0,
{
    let p = pat.to_owned();
    subs.push((p, val));
    proof {
        assert(sub_views(subs@) =~= sub_views(old(subs)@).push((pat@, val@)));
    }
}

/// The text of an optional value, or `-`.
pub open spec fn or_dash(o: Option<Seq<char>>) -> Seq<char> {
    match o {
        Some(s) => s,
        None => "-"@,
    }
}

fn or_dash_text(o: &Option<String>) -> (r: String)
    ensures
        r@ == or_dash(opt_view(*o)),
{
    match o {
        Some(s) => s.clone(),
        None => "-".to_owned(),
    }
}

// ---------------------------------------------------------------------
// A group's profile
// ---------------------------------------------------------------------

/// The first characters of a text whose UTF-8 encoding takes at most `k`
/// bytes (the text up to byte `k`, as string slicing takes it).
pub open spec fn byte_prefix(c: Seq<char>, k: nat) -> Seq<char> {
    let b = encode_utf8(c);
    decode_utf8(b.take(if k < b.len() { k as int } else { b.len() as int }))
}

/// Whether the first `k` bytes of a text end on a character boundary, so that
/// string slicing can take them.
pub open spec fn cuts_at_boundary(c: Seq<char>, k: nat) -> bool {
    let b = encode_utf8(c);
    vstd::utf8::is_char_boundary(b, if k < b.len() { k as int } else { b.len() as int })
}

/// The check date shown for a site: the first ten bytes of its last check
/// time, or `-`.
pub open spec fn checked_text(c: Option<Seq<char>>) -> Seq<char> {
    match c {
        Some(t) => byte_prefix(t, 10),
        None => "-"@,
    }
}

/// A site's table line: type, `UP` or `DOWN`, title, URL, check date.
pub open spec fn site_line(s: LocationRow) -> Seq<char> {
    "| "@ + s.loc_type@ + " | "@ + (if s.available {
        "UP"@
    } else {
        "DOWN"@
    }) + " | "@ + or_dash(opt_view(s.title)) + " | `"@ + s.slug@ + "` | "@ + checked_text(
        opt_view(s.last_checked_at),
    ) + " |"@
}

/// A note's table line: file name, type, URL.
pub open spec fn note_line(n: RansomNoteRow) -> Seq<char> {
    "| "@ + n.filename@ + " | "@ + n.file_type@ + " | "@ + n.url@ + " |"@
}

/// A recent victim's table line: date, country, name.
pub open spec fn victim_line(v: VictimSummary) -> Seq<char> {
    "| "@ + or_dash(opt_view(v.discovered_at)) + " | "@ + or_dash(opt_view(v.country)) + " | "@
        + v.name@ + " |"@
}

/// The lines joined by newlines, or the placeholder line when there are none.
pub open spec fn lines_or(lines: Seq<Seq<char>>, empty_line: Seq<char>) -> Seq<char> {
    if lines.len() > 0 {
        join(lines, "\n"@)
    } else {
        empty_line
    }
}

/// The PGP key shown: its first fifty characters followed by `...`, or `-`.
pub open spec fn pgp_text(pgp: Option<Seq<char>>) -> Seq<char> {
    match pgp {
        Some(p) => p.take(if p.len() < 50 { p.len() as int } else { 50 }) + "..."@,
        None => "-"@,
    }
}

/// The placeholders of a group's profile and their values, in the order they
/// are replaced.
pub open spec fn group_detail_subs(
    group_id: usize,
    g: GroupDetail,
    sites: Seq<LocationRow>,
    notes: Seq<RansomNoteRow>,
    victims: Seq<VictimSummary>,
) -> Seq<(Seq<char>, Seq<char>)> {
    seq![
        ("{{name}}"@, g.name@),
        ("{{id}}"@, decimal(group_id as nat)),
        ("{{tox}}"@, or_dash(opt_view(g.tox))),
        ("{{telegram}}"@, or_dash(opt_view(g.telegram))),
        ("{{jabber}}"@, or_dash(opt_view(g.jabber))),
        ("{{pgp}}"@, pgp_text(opt_view(g.pgp))),
        ("{{description}}"@, or_dash(opt_view(g.description))),
        ("{{tools}}"@, tools_text(opt_view(g.tools))),
        ("{{ttps}}"@, ttps_text(opt_view(g.ttps))),
        ("{{sites}}"@, lines_or(sites.map_values(|s: LocationRow| site_line(s)), "| - | - | - | - | - |"@)),
        ("{{ransom_notes}}"@, lines_or(notes.map_values(|n: RansomNoteRow| note_line(n)), "| - | - | - |"@)),
        ("{{victims}}"@, lines_or(victims.map_values(|v: VictimSummary| victim_line(v)), "| - | - | - |"@)),
    ]
}

fn checked_date(c: &Option<String>) -> (r: String)
    requires
        c matches Some(t) ==> cuts_at_boundary(t@, 10),
    ensures
        r@ == checked_text(opt_view(*c)),
{
    match c {
        Some(t) => {
            let s = t.as_str();
            let len = s.as_bytes().len();
            let k: usize = if len < 10 {
                len
            } else {
                10
            };
            proof {
                assert(s.spec_bytes() == encode_utf8(t@));
            }
            let (head, _) = s.split_at(k);
            proof {
                vstd::utf8::encode_utf8_decode_utf8(head@);
                assert(encode_utf8(t@).take(k as int) =~= encode_utf8(t@).subrange(0, k as int));
            }
            head.to_owned()
        },
        None => "-".to_owned(),
    }
}

fn site_text(s: &LocationRow) -> (r: String)
    requires
        s.last_checked_at matches Some(t) ==> cuts_at_boundary(t@, 10),
    ensures
        r@ == site_line(*s),
{
    let mut r = "| ".to_owned();
    r.append(s.loc_type.as_str());
    r.append(" | ");
    if s.available {
        r.append("UP");
    } else {
        r.append("DOWN");
    }
    r.append(" | ");
    let title = or_dash_text(&s.title);
    r.append(title.as_str());
    r.append(" | `");
    r.append(s.slug.as_str());
    r.append("` | ");
    let checked = checked_date(&s.last_checked_at);
    r.append(checked.as_str());
    r.append(" |");
    proof {
        assert(r@ =~= site_line(*s));
    }
    r
}

fn note_text(n: &RansomNoteRow) -> (r: String)
    ensures
        r@ == note_line(*n),
{
    let mut r = "| ".to_owned();
    r.append(n.filename.as_str());
    r.append(" | ");
    r.append(n.file_type.as_str());
    r.append(" | ");
    r.append(n.url.as_str());
    r.append(" |");
    r
}

fn victim_text(v: &VictimSummary) -> (r: String)
    ensures
        r@ == victim_line(*v),
{
    let mut r = "| ".to_owned();
    let d = or_dash_text(&v.discovered_at);
    r.append(d.as_str());
    r.append(" | ");
    let c = or_dash_text(&v.country);
    r.append(c.as_str());
    r.append(" | ");
    r.append(v.name.as_str());
    r.append(" |");
    r
}

fn sites_section(sites: &Vec<LocationRow>) -> (r: String)
    requires
        forall|i: int|
            0 <= i < sites@.len() ==> ((#[trigger] sites@[i]).last_checked_at matches Some(t)
                ==> cuts_at_boundary(t@, 10)),
    ensures
        r@ == lines_or(sites@.map_values(|s: LocationRow| site_line(s)), "| - | - | - | - | - |"@),
{
    if sites.len() == 0 {
        return "| - | - | - | - | - |".to_owned();
    }
    let mut lines: Vec<String> = Vec::new();
    let n = sites.len();
    let mut i: usize = 0;
    while i < n
        invariant
            i <= n,
            n == sites@.len(),
            forall|j: int|
                0 <= j < sites@.len() ==> ((#[trigger] sites@[j]).last_checked_at matches Some(t)
                    ==> cuts_at_boundary(t@, 10)),
            views(lines@) == sites@.take(i as int).map_values(|s: LocationRow| site_line(s)),
        decreases n - i,
    {
        let line = site_text(&sites[i]);
        let ghost before = lines@;
        lines.push(line);
        proof {
            assert(views(lines@) =~= views(before).push(line@));
            assert(sites@.take(i + 1).map_values(|s: LocationRow| site_line(s)) =~= sites@.take(
                i as int,
            ).map_values(|s: LocationRow| site_line(s)).push(site_line(sites@[i as int])));
        }
        i = i + 1;
    }
    proof {
        assert(sites@.take(n as int) =~= sites@);
    }
    join_strings(&lines, "\n")
}

fn notes_section(notes: &Vec<RansomNoteRow>) -> (r: String)
    ensures
        r@ == lines_or(notes@.map_values(|n: RansomNoteRow| note_line(n)), "| - | - | - |"@),
{
    if notes.len() == 0 {
        return "| - | - | - |".to_owned();
    }
    let mut lines: Vec<String> = Vec::new();
    let n = notes.len();
    let mut i: usize = 0;
    while i < n
        invariant
            i <= n,
            n == notes@.len(),
            views(lines@) == notes@.take(i as int).map_values(|x: RansomNoteRow| note_line(x)),
        decreases n - i,
    {
        let line = note_text(&notes[i]);
        let ghost before = lines@;
        lines.push(line);
        proof {
            assert(views(lines@) =~= views(before).push(line@));
            assert(notes@.take(i + 1).map_values(|x: RansomNoteRow| note_line(x)) =~= notes@.take(
                i as int,
            ).map_values(|x: RansomNoteRow| note_line(x)).push(note_line(notes@[i as int])));
        }
        i = i + 1;
    }
    proof {
        assert(notes@.take(n as int) =~= notes@);
    }
    join_strings(&lines, "\n")
}

fn victims_section(victims: &Vec<VictimSummary>) -> (r: String)
    ensures
        r@ == lines_or(victims@.map_values(|v: VictimSummary| victim_line(v)), "| - | - | - |"@),
{
    if victims.len() == 0 {
        return "| - | - | - |".to_owned();
    }
    let mut lines: Vec<String> = Vec::new();
    let n = victims.len();
    let mut i: usize = 0;
    while i < n
        invariant
            i <= n,
            n == victims@.len(),
            views(lines@) == victims@.take(i as int).map_values(|v: VictimSummary| victim_line(v)),
        decreases n - i,
    {
        let line = victim_text(&victims[i]);
        let ghost before = lines@;
        lines.push(line);
        proof {
            assert(views(lines@) =~= views(before).push(line@));
            assert(victims@.take(i + 1).map_values(|v: VictimSummary| victim_line(v))
                =~= victims@.take(i as int).map_values(|v: VictimSummary| victim_line(v)).push(
                victim_line(victims@[i as int]),
            ));
        }
        i = i + 1;
    }
    proof {
        assert(victims@.take(n as int) =~= victims@);
    }
    join_strings(&lines, "\n")
}

fn pgp_shown(pgp: &Option<String>) -> (r: String)
    ensures
        r@ == pgp_text(opt_view(*pgp)),
{
    match pgp {
        Some(p) => {
            let n = p.as_str().unicode_len();
            let k = if n < 50 {
                n
            } else {
                50
            };
            let mut r = p.as_str().substring_char(0, k).to_owned();
            r.append("...");
            proof {
                assert(p@.subrange(0, k as int) =~= p@.take(k as int));
            }
            r
        },
        None => "-".to_owned(),
    }
}

/// A group's profile: the template with the group's name, id, contacts,
/// shortened PGP key, description, tools, techniques, sites, ransom notes and
/// recent victims filled in. A site's check time must allow slicing off its
/// first ten bytes.
pub fn render_group_detail(
    template: &str,
    group_id: usize,
    group: &GroupDetail,
    sites: &Vec<LocationRow>,
    notes: &Vec<RansomNoteRow>,
    victims: &Vec<VictimSummary>,
) -> (r: String)
    requires
        forall|i: int|
            0 <= i < sites@.len() ==> ((#[trigger] sites@[i]).last_checked_at matches Some(t)
                ==> cuts_at_boundary(t@, 10)),
    ensures
        r@ == substitute_all(
            template@,
            group_detail_subs(group_id, *group, sites@, notes@, victims@),
        ),
{
    let mut subs: Vec<(String, String)> = Vec::new();
    proof {
        reveal_strlit("{{name}}");
        reveal_strlit("{{id}}");
        reveal_strlit("{{tox}}");
        reveal_strlit("{{telegram}}");
        reveal_strlit("{{jabber}}");
        reveal_strlit("{{pgp}}");
        reveal_strlit("{{description}}");
        reveal_strlit("{{tools}}");
        reveal_strlit("{{ttps}}");
        reveal_strlit("{{sites}}");
        reveal_strlit("{{ransom_notes}}");
        reveal_strlit("{{victims}}");
    }
    push_sub(&mut subs, "{{name}}", group.name.clone());
    push_sub(&mut subs, "{{id}}", usize_to_string(group_id));
    push_sub(&mut subs, "{{tox}}", or_dash_text(&group.tox));
    push_sub(&mut subs, "{{telegram}}", or_dash_text(&group.telegram));
    push_sub(&mut subs, "{{jabber}}", or_dash_text(&group.jabber));
    push_sub(&mut subs, "{{pgp}}", pgp_shown(&group.pgp));
    push_sub(&mut subs, "{{description}}", or_dash_text(&group.description));
    push_sub(&mut subs, "{{tools}}", tools_text_of(&group.tools));
    push_sub(&mut subs, "{{ttps}}", ttps_text_of(&group.ttps));
    push_sub(&mut subs, "{{sites}}", sites_section(sites));
    push_sub(&mut subs, "{{ransom_notes}}", notes_section(notes));
    push_sub(&mut subs, "{{victims}}", victims_section(victims));
    proof {
        assert(sub_views(subs@) =~= group_detail_subs(group_id, *group, sites@, notes@, victims@));
    }
    fill_template(template, &subs)
}

/// A decimal numeral holds no brace.
proof fn lemma_decimal_brace_free(n: nat)
    ensures
        brace_free(decimal(n)),
{
    crate::text::lemma_decimal_digits(n);
    assert forall|i: int| 0 <= i < decimal(n).len() implies #[trigger] decimal(n)[i] != '{'
        && decimal(n)[i] != '}' by {
        assert(crate::text::is_digit(decimal(n)[i]));
    }
}

/// The placeholders of a group's profile are placeholders, each different
/// from those replaced before it.
proof fn lemma_group_placeholders(
    group_id: usize,
    g: GroupDetail,
    sites: Seq<LocationRow>,
    notes: Seq<RansomNoteRow>,
    victims: Seq<VictimSummary>,
)
    ensures
        forall|j: int|
            0 <= j < 12 ==> is_placeholder(
                #[trigger] group_detail_subs(group_id, g, sites, notes, victims)[j].0,
            ),
        forall|j: int, k: int|
            0 <= j < k < 12 ==> (#[trigger] group_detail_subs(group_id, g, sites, notes, victims)[j]).0
                != (#[trigger] group_detail_subs(group_id, g, sites, notes, victims)[k]).0,
        group_detail_subs(group_id, g, sites, notes, victims).len() == 12,
{
    reveal_strlit("{{name}}");
    reveal_strlit("{{id}}");
    reveal_strlit("{{tox}}");
    reveal_strlit("{{telegram}}");
    reveal_strlit("{{jabber}}");
    reveal_strlit("{{pgp}}");
    reveal_strlit("{{description}}");
    reveal_strlit("{{tools}}");
    reveal_strlit("{{ttps}}");
    reveal_strlit("{{sites}}");
    reveal_strlit("{{ransom_notes}}");
    reveal_strlit("{{victims}}");
    let s = group_detail_subs(group_id, g, sites, notes, victims);
    assert forall|j: int| 0 <= j < 12 implies is_placeholder(#[trigger] s[j].0) by {
        let p = s[j].0;
        assert forall|i: int| 2 <= i < p.len() - 2 implies #[trigger] p[i] != '{' && p[i] != '}' by {}
    }
    assert forall|j: int, k: int| 0 <= j < k < 12 implies (#[trigger] s[j]).0 != (#[trigger] s[k]).0 by {
        if s[j].0.len() == s[k].0.len() {
            assert(s[j].0[2] != s[k].0[2]);
        }
    }
}

/// What a group's profile shows for each placeholder, each standing alone
/// between brace-free text: the group's name, the id, each contact (or `-`),
/// the first fifty characters of the PGP key followed by `...` (or `-`), the
/// description (or `-`), the tools and TTPs sections, and the sites, ransom
/// notes and recent victims, one line each (or the placeholder line). Each
/// value comes from its own field alone; the law holds when the value holds no
/// brace.
pub proof fn lemma_group_profile_fields(
    a: Seq<char>,
    b: Seq<char>,
    group_id: usize,
    g: GroupDetail,
    sites: Seq<LocationRow>,
    notes: Seq<RansomNoteRow>,
    victims: Seq<VictimSummary>,
)
    requires
        brace_free(a),
        brace_free(b),
    ensures
        ({
            let subs = group_detail_subs(group_id, g, sites, notes, victims);
            let name = g.name@;
            let id = decimal(group_id as nat);
            let tox = match g.tox { Some(x) => x@, None => "-"@ };
            let telegram = match g.telegram { Some(x) => x@, None => "-"@ };
            let jabber = match g.jabber { Some(x) => x@, None => "-"@ };
            let pgp = match g.pgp {
                Some(x) => x@.take(if x@.len() < 50 { x@.len() as int } else { 50 }) + "..."@,
                None => "-"@,
            };
            let description = match g.description { Some(x) => x@, None => "-"@ };
            let tools = tools_text(opt_view(g.tools));
            let ttps = ttps_text(opt_view(g.ttps));
            let site_lines = if sites.len() > 0 {
                join(
                    sites.map_values(
                        |x: LocationRow|
                            "| "@ + x.loc_type@ + " | "@ + (if x.available {
                                "UP"@
                            } else {
                                "DOWN"@
                            }) + " | "@ + (match x.title {
                                Some(t) => t@,
                                None => "-"@,
                            }) + " | `"@ + x.slug@ + "` | "@ + (match x.last_checked_at {
                                Some(t) => byte_prefix(t@, 10),
                                None => "-"@,
                            }) + " |"@,
                    ),
                    "\n"@,
                )
            } else {
                "| - | - | - | - | - |"@
            };
            let note_lines = if notes.len() > 0 {
                join(
                    notes.map_values(
                        |x: RansomNoteRow|
                            "| "@ + x.filename@ + " | "@ + x.file_type@ + " | "@ + x.url@ + " |"@,
                    ),
                    "\n"@,
                )
            } else {
                "| - | - | - |"@
            };
            let victim_lines = if victims.len() > 0 {
                join(
                    victims.map_values(
                        |x: VictimSummary|
                            "| "@ + (match x.discovered_at {
                                Some(t) => t@,
                                None => "-"@,
                            }) + " | "@ + (match x.country {
                                Some(t) => t@,
                                None => "-"@,
                            }) + " | "@ + x.name@ + " |"@,
                    ),
                    "\n"@,
                )
            } else {
                "| - | - | - |"@
            };
            &&& brace_free(name) ==> substitute_all(a + "{{name}}"@ + b, subs) == a + name + b
            &&& substitute_all(a + "{{id}}"@ + b, subs) == a + id + b
            &&& brace_free(tox) ==> substitute_all(a + "{{tox}}"@ + b, subs) == a + tox + b
            &&& brace_free(telegram) ==> substitute_all(a + "{{telegram}}"@ + b, subs) == a
                + telegram + b
            &&& brace_free(jabber) ==> substitute_all(a + "{{jabber}}"@ + b, subs) == a + jabber + b
            &&& brace_free(pgp) ==> substitute_all(a + "{{pgp}}"@ + b, subs) == a + pgp + b
            &&& brace_free(description) ==> substitute_all(a + "{{description}}"@ + b, subs) == a
                + description + b
            &&& brace_free(tools) ==> substitute_all(a + "{{tools}}"@ + b, subs) == a + tools + b
            &&& brace_free(ttps) ==> substitute_all(a + "{{ttps}}"@ + b, subs) == a + ttps + b
            &&& brace_free(site_lines) ==> substitute_all(a + "{{sites}}"@ + b, subs) == a
                + site_lines + b
            &&& brace_free(note_lines) ==> substitute_all(a + "{{ransom_notes}}"@ + b, subs) == a
                + note_lines + b
            &&& brace_free(victim_lines) ==> substitute_all(a + "{{victims}}"@ + b, subs) == a
                + victim_lines + b
        }),
{
    let subs = group_detail_subs(group_id, g, sites, notes, victims);
    lemma_group_placeholders(group_id, g, sites, notes, victims);
    lemma_decimal_brace_free(group_id as nat);
    assert forall|k: int| 0 <= k < 12 && brace_free(#[trigger] subs[k].1) implies substitute_all(
        a + subs[k].0 + b,
        subs,
    ) == a + subs[k].1 + b by {
        assert forall|j: int| 0 <= j < k implies (#[trigger] subs[j]).0 != subs[k].0 by {
            assert(subs[j].0 != subs[k].0);
        }
        lemma_fill_lone_placeholder(a, b, subs, k);
    }
    assert(subs[0].1 == g.name@);
    assert(subs[1].1 == decimal(group_id as nat));
    assert(subs[2].1 == or_dash(opt_view(g.tox)));
    assert(subs[3].1 == or_dash(opt_view(g.telegram)));
    assert(subs[4].1 == or_dash(opt_view(g.jabber)));
    assert(subs[5].1 == pgp_text(opt_view(g.pgp)));
    assert(subs[6].1 == or_dash(opt_view(g.description)));
    assert(subs[7].1 == tools_text(opt_view(g.tools)));
    assert(subs[8].1 == ttps_text(opt_view(g.ttps)));
    assert(subs[9].1 == lines_or(sites.map_values(|s: LocationRow| site_line(s)), "| - | - | - | - | - |"@));
    assert(subs[10].1 == lines_or(notes.map_values(|n: RansomNoteRow| note_line(n)), "| - | - | - |"@));
    assert(subs[11].1 == lines_or(victims.map_values(|v: VictimSummary| victim_line(v)), "| - | - | - |"@));
    assert(sites.map_values(|s: LocationRow| site_line(s)) =~= sites.map_values(
        |x: LocationRow|
            "| "@ + x.loc_type@ + " | "@ + (if x.available {
                "UP"@
            } else {
                "DOWN"@
            }) + " | "@ + (match x.title {
                Some(t) => t@,
                None => "-"@,
            }) + " | `"@ + x.slug@ + "` | "@ + (match x.last_checked_at {
                Some(t) => byte_prefix(t@, 10),
                None => "-"@,
            }) + " |"@,
    ));
    assert(notes.map_values(|n: RansomNoteRow| note_line(n)) =~= notes.map_values(
        |x: RansomNoteRow| "| "@ + x.filename@ + " | "@ + x.file_type@ + " | "@ + x.url@ + " |"@,
    ));
    assert(victims.map_values(|v: VictimSummary| victim_line(v)) =~= victims.map_values(
        |x: VictimSummary|
            "| "@ + (match x.discovered_at {
                Some(t) => t@,
                None => "-"@,
            }) + " | "@ + (match x.country {
                Some(t) => t@,
                None => "-"@,
            }) + " | "@ + x.name@ + " |"@,
    ));
}

// ---------------------------------------------------------------------
// A victim's profile
// ---------------------------------------------------------------------

/// The placeholders of a victim's profile and their values, in the order they
/// are replaced.
pub open spec fn victim_detail_subs(victim_id: usize, v: VictimDetail) -> Seq<(Seq<char>, Seq<char>)> {
    seq![
        ("{{name}}"@, v.name@),
        ("{{id}}"@, decimal(victim_id as nat)),
        ("{{group}}"@, v.group_name@),
        ("{{country}}"@, or_dash(opt_view(v.country))),
        ("{{activity}}"@, or_dash(opt_view(v.activity))),
        ("{{discovered}}"@, or_dash(opt_view(v.discovered_at))),
        ("{{description}}"@, or_dash(opt_view(v.description))),
        ("{{post_url}}"@, or_dash(opt_view(v.post_url))),
        ("{{website}}"@, or_dash(opt_view(v.website))),
    ]
}

/// A victim's profile: the template with the victim's record filled in.
pub fn render_victim_detail(template: &str, victim_id: usize, victim: &VictimDetail) -> (r: String)
    ensures
        r@ == substitute_all(template@, victim_detail_subs(victim_id, *victim)),
{
    let mut subs: Vec<(String, String)> = Vec::new();
    proof {
        reveal_strlit("{{name}}");
        reveal_strlit("{{id}}");
        reveal_strlit("{{group}}");
        reveal_strlit("{{country}}");
        reveal_strlit("{{activity}}");
        reveal_strlit("{{discovered}}");
        reveal_strlit("{{description}}");
        reveal_strlit("{{post_url}}");
        reveal_strlit("{{website}}");
    }
    push_sub(&mut subs, "{{name}}", victim.name.clone());
    push_sub(&mut subs, "{{id}}", usize_to_string(victim_id));
    push_sub(&mut subs, "{{group}}", victim.group_name.clone());
    push_sub(&mut subs, "{{country}}", or_dash_text(&victim.country));
    push_sub(&mut subs, "{{activity}}", or_dash_text(&victim.activity));
    push_sub(&mut subs, "{{discovered}}", or_dash_text(&victim.discovered_at));
    push_sub(&mut subs, "{{description}}", or_dash_text(&victim.description));
    push_sub(&mut subs, "{{post_url}}", or_dash_text(&victim.post_url));
    push_sub(&mut subs, "{{website}}", or_dash_text(&victim.website));
    proof {
        assert(sub_views(subs@) =~= victim_detail_subs(victim_id, *victim));
    }
    fill_template(template, &subs)
}

proof fn lemma_victim_placeholders(victim_id: usize, v: VictimDetail)
    ensures
        forall|j: int| 0 <= j < 9 ==> is_placeholder(#[trigger] victim_detail_subs(victim_id, v)[j].0),
        forall|j: int, k: int|
            0 <= j < k < 9 ==> (#[trigger] victim_detail_subs(victim_id, v)[j]).0 != (
            #[trigger] victim_detail_subs(victim_id, v)[k]).0,
        victim_detail_subs(victim_id, v).len() == 9,
{
    reveal_strlit("{{name}}");
    reveal_strlit("{{id}}");
    reveal_strlit("{{group}}");
    reveal_strlit("{{country}}");
    reveal_strlit("{{activity}}");
    reveal_strlit("{{discovered}}");
    reveal_strlit("{{description}}");
    reveal_strlit("{{post_url}}");
    reveal_strlit("{{website}}");
    let s = victim_detail_subs(victim_id, v);
    assert forall|j: int| 0 <= j < 9 implies is_placeholder(#[trigger] s[j].0) by {
        let p = s[j].0;
        assert forall|i: int| 2 <= i < p.len() - 2 implies #[trigger] p[i] != '{' && p[i] != '}' by {}
    }
    assert forall|j: int, k: int| 0 <= j < k < 9 implies (#[trigger] s[j]).0 != (#[trigger] s[k]).0 by {
        if s[j].0.len() == s[k].0.len() {
            assert(s[j].0[2] != s[k].0[2]);
        }
    }
}

/// What a victim's profile shows for each placeholder, each standing alone
/// between brace-free text: the victim's name, the id, the group's name, and
/// the country, activity, discovery date, description, post URL and website,
/// each from its own field (or `-`). The law holds when the value holds no
/// brace.
pub proof fn lemma_victim_profile_fields(a: Seq<char>, b: Seq<char>, victim_id: usize, v: VictimDetail)
    requires
        brace_free(a),
        brace_free(b),
    ensures
        ({
            let subs = victim_detail_subs(victim_id, v);
            let country = match v.country { Some(x) => x@, None => "-"@ };
            let activity = match v.activity { Some(x) => x@, None => "-"@ };
            let discovered = match v.discovered_at { Some(x) => x@, None => "-"@ };
            let description = match v.description { Some(x) => x@, None => "-"@ };
            let post_url = match v.post_url { Some(x) => x@, None => "-"@ };
            let website = match v.website { Some(x) => x@, None => "-"@ };
            &&& brace_free(v.name@) ==> substitute_all(a + "{{name}}"@ + b, subs) == a + v.name@ + b
            &&& substitute_all(a + "{{id}}"@ + b, subs) == a + decimal(victim_id as nat) + b
            &&& brace_free(v.group_name@) ==> substitute_all(a + "{{group}}"@ + b, subs) == a
                + v.group_name@ + b
            &&& brace_free(country) ==> substitute_all(a + "{{country}}"@ + b, subs) == a + country + b
            &&& brace_free(activity) ==> substitute_all(a + "{{activity}}"@ + b, subs) == a + activity
                + b
            &&& brace_free(discovered) ==> substitute_all(a + "{{discovered}}"@ + b, subs) == a
                + discovered + b
            &&& brace_free(description) ==> substitute_all(a + "{{description}}"@ + b, subs) == a
                + description + b
            &&& brace_free(post_url) ==> substitute_all(a + "{{post_url}}"@ + b, subs) == a + post_url
                + b
            &&& brace_free(website) ==> substitute_all(a + "{{website}}"@ + b, subs) == a + website + b
        }),
{
    let subs = victim_detail_subs(victim_id, v);
    lemma_victim_placeholders(victim_id, v);
    lemma_decimal_brace_free(victim_id as nat);
    assert forall|k: int| 0 <= k < 9 && brace_free(#[trigger] subs[k].1) implies substitute_all(
        a + subs[k].0 + b,
        subs,
    ) == a + subs[k].1 + b by {
        assert forall|j: int| 0 <= j < k implies (#[trigger] subs[j]).0 != subs[k].0 by {
            assert(subs[j].0 != subs[k].0);
        }
        lemma_fill_lone_placeholder(a, b, subs, k);
    }
    assert(subs[0].1 == v.name@);
    assert(subs[1].1 == decimal(victim_id as nat));
    assert(subs[2].1 == v.group_name@);
    assert(subs[3].1 == or_dash(opt_view(v.country)));
    assert(subs[4].1 == or_dash(opt_view(v.activity)));
    assert(subs[5].1 == or_dash(opt_view(v.discovered_at)));
    assert(subs[6].1 == or_dash(opt_view(v.description)));
    assert(subs[7].1 == or_dash(opt_view(v.post_url)));
    assert(subs[8].1 == or_dash(opt_view(v.website)));
}

// ---------------------------------------------------------------------
// Listing tables
// ---------------------------------------------------------------------

/// `Y` for a contact that is known, `-` otherwise.
pub open spec fn yes_dash(b: bool) -> Seq<char> {
    if b {
        "Y"@
    } else {
        "-"@
    }
}

/// The columns of the group listing.
pub open spec fn group_columns() -> Seq<(Seq<char>, nat)> {
    seq![
        ("ID"@, 3nat),
        ("Group"@, 18nat),
        ("Victims"@, 7nat),
        ("Last Activity"@, 13nat),
        ("DLS"@, 3nat),
        ("Notes"@, 5nat),
        ("TOX"@, 3nat),
        ("TG"@, 2nat),
        ("JBR"@, 3nat),
        ("PGP"@, 3nat),
    ]
}

/// A group's cells in the group listing.
pub open spec fn group_cells(g: GroupRow) -> Seq<Seq<char>> {
    seq![
        int_text(g.id as int),
        g.name@,
        int_text(g.victim_count as int),
        g.last_activity@,
        int_text(g.dls_count as int),
        int_text(g.note_count as int),
        yes_dash(g.has_tox),
        yes_dash(g.has_telegram),
        yes_dash(g.has_jabber),
        yes_dash(g.has_pgp),
    ]
}

/// The columns of the victim listing.
pub open spec fn victim_columns() -> Seq<(Seq<char>, nat)> {
    seq![("ID"@, 4nat), ("Victim"@, 25nat), ("Group"@, 14nat), ("Country"@, 7nat), ("Date"@, 10nat)]
}

/// A victim's cells in the victim listing.
pub open spec fn victim_cells(v: VictimRow) -> Seq<Seq<char>> {
    seq![int_text(v.id as int), v.name@, v.group_name@, v.country@, v.discovered_at@]
}

/// The columns of the per-country counts.
pub open spec fn country_columns() -> Seq<(Seq<char>, nat)> {
    seq![("Country"@, 10nat), ("Count"@, 5nat), ("Last Discovered"@, 10nat)]
}

/// A country's cells in the per-country counts.
pub open spec fn country_cells(c: CountryCount) -> Seq<Seq<char>> {
    seq![c.country@, int_text(c.count as int), c.last_discovered@]
}

/// The columns of the ransom-note listing.
pub open spec fn note_columns() -> Seq<(Seq<char>, nat)> {
    seq![("ID"@, 3nat), ("Group"@, 18nat), ("URL"@, 20nat)]
}

/// A note's cells in the ransom-note listing.
pub open spec fn note_cells(n: NoteWithGroup) -> Seq<Seq<char>> {
    seq![int_text(n.group_id as int), n.group_name@, n.url@]
}

/// The columns of a count table whose first column is headed `heading`.
pub open spec fn count_columns(heading: Seq<char>) -> Seq<(Seq<char>, nat)> {
    seq![(heading, 50nat), ("Groups"@, 6nat)]
}

/// An entry's cells in a count table.
pub open spec fn count_cells(e: (String, usize)) -> Seq<Seq<char>> {
    seq![e.0@, decimal(e.1 as nat)]
}

/// Every column is at most `max` characters wide.
pub open spec fn widths_at_most(cols: Seq<(Seq<char>, nat)>, max: nat) -> bool {
    forall|i: int| 0 <= i < cols.len() ==> (#[trigger] cols[i]).1 <= max
}

proof fn lemma_table_width_bound(cols: Seq<(Seq<char>, nat)>)
    requires
        widths_at_most(cols, 100),
    ensures
        table_width(cols) <= 1 + 103 * cols.len(),
    decreases cols.len(),
{
    if cols.len() > 0 {
        assert(widths_at_most(cols.drop_last(), 100)) by {
            assert forall|i: int| 0 <= i < cols.drop_last().len() implies (
            #[trigger] cols.drop_last()[i]).1 <= 100 by {
                assert(cols.drop_last()[i] == cols[i]);
            }
        }
        lemma_table_width_bound(cols.drop_last());
        assert(cols.last() == cols[cols.len() - 1]);
    }
}

fn add_column(cols: &mut Vec<(String, usize)>, name: &str, w: usize)
    requires
        w <= 100,
        widths_at_most(col_views(old(cols)@), 100),
    ensures
        col_views(final(cols)@) == col_views(old(cols)@).push((name@, w as nat)),
        widths_at_most(col_views(final(cols)@), 100),
{
    cols.push((name.to_owned(), w));
    proof {
        assert(col_views(cols@) =~= col_views(old(cols)@).push((name@, w as nat)));
    }
}

fn add_cell(cells: &mut Vec<String>, s: String)
    ensures
        views(final(cells)@) == views(old(cells)@).push(s@),
{
    cells.push(s);
    proof {
        assert(views(cells@) =~= views(old(cells)@).push(s@));
    }
}

fn yes_dash_text(b: bool) -> (r: String)
    ensures
        r@ == yes_dash(b),
{
    if b {
        "Y".to_owned()
    } else {
        "-".to_owned()
    }
}

fn finish_table(cols: &Vec<(String, usize)>, rows: &Vec<Vec<String>>) -> (r: Vec<String>)
    requires
        widths_at_most(col_views(cols@), 100),
        cols@.len() <= 10,
    ensures
        views(r@) == table_lines(col_views(cols@), row_views(rows@)),
{
    proof {
        lemma_table_width_bound(col_views(cols@));
    }
    format_table(cols, rows)
}

proof fn lemma_rows_push<T>(
    rows: Seq<Vec<String>>,
    items: Seq<T>,
    f: spec_fn(T) -> Seq<Seq<char>>,
    i: int,
    row: Vec<String>,
)
    requires
        0 <= i < items.len(),
        row_views(rows) == items.take(i).map_values(f),
        views(row@) == f(items[i]),
    ensures
        row_views(rows.push(row)) == items.take(i + 1).map_values(f),
{
    let a = row_views(rows.push(row));
    let b = items.take(i + 1).map_values(f);
    assert(row_views(rows).len() == i);
    assert(a.len() == b.len());
    assert forall|k: int| 0 <= k < a.len() implies a[k] == b[k] by {
        if k < i {
            assert(a[k] == row_views(rows)[k]);
            assert(row_views(rows)[k] == items.take(i).map_values(f)[k]);
        }
    }
    assert(a =~= b);
}

/// The group listing.
pub fn group_table(groups: &Vec<GroupRow>) -> (r: Vec<String>)
    ensures
        views(r@) == table_lines(group_columns(), groups@.map_values(|g: GroupRow| group_cells(g))),
{
    let mut cols: Vec<(String, usize)> = Vec::new();
    add_column(&mut cols, "ID", 3);
    add_column(&mut cols, "Group", 18);
    add_column(&mut cols, "Victims", 7);
    add_column(&mut cols, "Last Activity", 13);
    add_column(&mut cols, "DLS", 3);
    add_column(&mut cols, "Notes", 5);
    add_column(&mut cols, "TOX", 3);
    add_column(&mut cols, "TG", 2);
    add_column(&mut cols, "JBR", 3);
    add_column(&mut cols, "PGP", 3);
    proof {
        assert(col_views(cols@) =~= group_columns());
    }
    let mut rows: Vec<Vec<String>> = Vec::new();
    let n = groups.len();
    let mut i: usize = 0;
    while i < n
        invariant
            i <= n,
            n == groups@.len(),
            row_views(rows@) == groups@.take(i as int).map_values(|g: GroupRow| group_cells(g)),
        decreases n - i,
    {
        let g = &groups[i];
        let mut cells: Vec<String> = Vec::new();
        add_cell(&mut cells, i64_to_string(g.id));
        add_cell(&mut cells, g.name.clone());
        add_cell(&mut cells, i64_to_string(g.victim_count));
        add_cell(&mut cells, g.last_activity.clone());
        add_cell(&mut cells, i64_to_string(g.dls_count));
        add_cell(&mut cells, i64_to_string(g.note_count));
        add_cell(&mut cells, yes_dash_text(g.has_tox));
        add_cell(&mut cells, yes_dash_text(g.has_telegram));
        add_cell(&mut cells, yes_dash_text(g.has_jabber));
        add_cell(&mut cells, yes_dash_text(g.has_pgp));
        proof {
            assert(views(cells@) =~= group_cells(*g));
            lemma_rows_push(rows@, groups@, |g: GroupRow| group_cells(g), i as int, cells);
        }
        rows.push(cells);
        i = i + 1;
    }
    proof {
        assert(groups@.take(n as int) =~= groups@);
    }
    finish_table(&cols, &rows)
}

/// The victim listing.
pub fn victim_table(victims: &Vec<VictimRow>) -> (r: Vec<String>)
    ensures
        views(r@) == table_lines(victim_columns(), victims@.map_values(|v: VictimRow| victim_cells(v))),
{
    let mut cols: Vec<(String, usize)> = Vec::new();
    add_column(&mut cols, "ID", 4);
    add_column(&mut cols, "Victim", 25);
    add_column(&mut cols, "Group", 14);
    add_column(&mut cols, "Country", 7);
    add_column(&mut cols, "Date", 10);
    proof {
        assert(col_views(cols@) =~= victim_columns());
    }
    let mut rows: Vec<Vec<String>> = Vec::new();
    let n = victims.len();
    let mut i: usize = 0;
    while i < n
        invariant
            i <= n,
            n == victims@.len(),
            row_views(rows@) == victims@.take(i as int).map_values(|v: VictimRow| victim_cells(v)),
        decreases n - i,
    {
        let v = &victims[i];
        let mut cells: Vec<String> = Vec::new();
        add_cell(&mut cells, i64_to_string(v.id));
        add_cell(&mut cells, v.name.clone());
        add_cell(&mut cells, v.group_name.clone());
        add_cell(&mut cells, v.country.clone());
        add_cell(&mut cells, v.discovered_at.clone());
        proof {
            assert(views(cells@) =~= victim_cells(*v));
            lemma_rows_push(rows@, victims@, |v: VictimRow| victim_cells(v), i as int, cells);
        }
        rows.push(cells);
        i = i + 1;
    }
    proof {
        assert(victims@.take(n as int) =~= victims@);
    }
    finish_table(&cols, &rows)
}

/// The per-country counts.
pub fn country_table(countries: &Vec<CountryCount>) -> (r: Vec<String>)
    ensures
        views(r@) == table_lines(
            country_columns(),
            countries@.map_values(|c: CountryCount| country_cells(c)),
        ),
{
    let mut cols: Vec<(String, usize)> = Vec::new();
    add_column(&mut cols, "Country", 10);
    add_column(&mut cols, "Count", 5);
    add_column(&mut cols, "Last Discovered", 10);
    proof {
        assert(col_views(cols@) =~= country_columns());
    }
    let mut rows: Vec<Vec<String>> = Vec::new();
    let n = countries.len();
    let mut i: usize = 0;
    while i < n
        invariant
            i <= n,
            n == countries@.len(),
            row_views(rows@) == countries@.take(i as int).map_values(
                |c: CountryCount| country_cells(c),
            ),
        decreases n - i,
    {
        let c = &countries[i];
        let mut cells: Vec<String> = Vec::new();
        add_cell(&mut cells, c.country.clone());
        add_cell(&mut cells, i64_to_string(c.count));
        add_cell(&mut cells, c.last_discovered.clone());
        proof {
            assert(views(cells@) =~= country_cells(*c));
            lemma_rows_push(rows@, countries@, |c: CountryCount| country_cells(c), i as int, cells);
        }
        rows.push(cells);
        i = i + 1;
    }
    proof {
        assert(countries@.take(n as int) =~= countries@);
    }
    finish_table(&cols, &rows)
}

/// The ransom-note listing.
pub fn note_table(notes: &Vec<NoteWithGroup>) -> (r: Vec<String>)
    ensures
        views(r@) == table_lines(note_columns(), notes@.map_values(|n: NoteWithGroup| note_cells(n))),
{
    let mut cols: Vec<(String, usize)> = Vec::new();
    add_column(&mut cols, "ID", 3);
    add_column(&mut cols, "Group", 18);
    add_column(&mut cols, "URL", 20);
    proof {
        assert(col_views(cols@) =~= note_columns());
    }
    let mut rows: Vec<Vec<String>> = Vec::new();
    let n = notes.len();
    let mut i: usize = 0;
    while i < n
        invariant
            i <= n,
            n == notes@.len(),
            row_views(rows@) == notes@.take(i as int).map_values(|x: NoteWithGroup| note_cells(x)),
        decreases n - i,
    {
        let x = &notes[i];
        let mut cells: Vec<String> = Vec::new();
        add_cell(&mut cells, i64_to_string(x.group_id));
        add_cell(&mut cells, x.group_name.clone());
        add_cell(&mut cells, x.url.clone());
        proof {
            assert(views(cells@) =~= note_cells(*x));
            lemma_rows_push(rows@, notes@, |x: NoteWithGroup| note_cells(x), i as int, cells);
        }
        rows.push(cells);
        i = i + 1;
    }
    proof {
        assert(notes@.take(n as int) =~= notes@);
    }
    finish_table(&cols, &rows)
}

/// A count table: a key column headed `heading` and a `Groups` column.
pub fn count_table(heading: &str, counts: &Vec<(String, usize)>) -> (r: Vec<String>)
    ensures
        views(r@) == table_lines(
            count_columns(heading@),
            counts@.map_values(|e: (String, usize)| count_cells(e)),
        ),
{
    let mut cols: Vec<(String, usize)> = Vec::new();
    add_column(&mut cols, heading, 50);
    add_column(&mut cols, "Groups", 6);
    proof {
        assert(col_views(cols@) =~= count_columns(heading@));
    }
    let mut rows: Vec<Vec<String>> = Vec::new();
    let n = counts.len();
    let mut i: usize = 0;
    while i < n
        invariant
            i <= n,
            n == counts@.len(),
            row_views(rows@) == counts@.take(i as int).map_values(
                |e: (String, usize)| count_cells(e),
            ),
        decreases n - i,
    {
        let mut cells: Vec<String> = Vec::new();
        add_cell(&mut cells, counts[i].0.clone());
        add_cell(&mut cells, usize_to_string(counts[i].1));
        proof {
            assert(views(cells@) =~= count_cells(counts@[i as int]));
            lemma_rows_push(rows@, counts@, |e: (String, usize)| count_cells(e), i as int, cells);
        }
        rows.push(cells);
        i = i + 1;
    }
    proof {
        assert(counts@.take(n as int) =~= counts@);
    }
    finish_table(&cols, &rows)
}

/// Each line of the group listing holds, under each heading, that group's own
/// value: under `ID` its id, under `Group` its name, under `Victims` its number of
/// victims, under `Last Activity` its last activity, under `DLS` and `Notes` its
/// numbers of sites and notes, and under `TOX`, `TG`, `JBR` and `PGP` a `Y` when
/// it has a TOX id, a Telegram contact, a Jabber contact or a PGP key (`-`
/// otherwise); each value shortened to its column.
pub proof fn lemma_group_table_columns(groups: Seq<GroupRow>, i: int)
    requires
        0 <= i < groups.len(),
    ensures
        ({
            let cols = group_columns();
            let lines = table_lines(cols, groups.map_values(|x: GroupRow| group_cells(x)));
            let g = groups[i];
            let line = lines[3 + i];
            &&& lines.len() == groups.len() + 4
            &&& column_text(lines[1], cols, 0) == cell("ID"@, 3)
            &&& column_text(line, cols, 0) == cell(spec_truncate(int_text(g.id as int), 3), 3)
            &&& column_text(lines[1], cols, 1) == cell("Group"@, 18)
            &&& column_text(line, cols, 1) == cell(spec_truncate(g.name@, 18), 18)
            &&& column_text(lines[1], cols, 2) == cell("Victims"@, 7)
            &&& column_text(line, cols, 2) == cell(spec_truncate(int_text(g.victim_count as int), 7), 7)
            &&& column_text(lines[1], cols, 3) == cell("Last Activity"@, 13)
            &&& column_text(line, cols, 3) == cell(spec_truncate(g.last_activity@, 13), 13)
            &&& column_text(lines[1], cols, 4) == cell("DLS"@, 3)
            &&& column_text(line, cols, 4) == cell(spec_truncate(int_text(g.dls_count as int), 3), 3)
            &&& column_text(lines[1], cols, 5) == cell("Notes"@, 5)
            &&& column_text(line, cols, 5) == cell(spec_truncate(int_text(g.note_count as int), 5), 5)
            &&& column_text(lines[1], cols, 6) == cell("TOX"@, 3)
            &&& column_text(line, cols, 6) == cell((if g.has_tox { "Y"@ } else { "-"@ }), 3)
            &&& column_text(lines[1], cols, 7) == cell("TG"@, 2)
            &&& column_text(line, cols, 7) == cell((if g.has_telegram { "Y"@ } else { "-"@ }), 2)
            &&& column_text(lines[1], cols, 8) == cell("JBR"@, 3)
            &&& column_text(line, cols, 8) == cell((if g.has_jabber { "Y"@ } else { "-"@ }), 3)
            &&& column_text(lines[1], cols, 9) == cell("PGP"@, 3)
            &&& column_text(line, cols, 9) == cell((if g.has_pgp { "Y"@ } else { "-"@ }), 3)
        }),
{
    reveal_strlit("ID");
    reveal_strlit("Group");
    reveal_strlit("Victims");
    reveal_strlit("Last Activity");
    reveal_strlit("DLS");
    reveal_strlit("Notes");
    reveal_strlit("TOX");
    reveal_strlit("TG");
    reveal_strlit("JBR");
    reveal_strlit("PGP");
    reveal_strlit("Y");
    reveal_strlit("-");
    let cols = group_columns();
    let rows = groups.map_values(|x: GroupRow| group_cells(x));
    assert forall|j: int| 0 <= j < cols.len() implies (#[trigger] cols[j]).0.len() <= cols[j].1 by {}
    lemma_table_columns(cols, rows, i, 0);
    lemma_table_columns(cols, rows, i, 1);
    lemma_table_columns(cols, rows, i, 2);
    lemma_table_columns(cols, rows, i, 3);
    lemma_table_columns(cols, rows, i, 4);
    lemma_table_columns(cols, rows, i, 5);
    lemma_table_columns(cols, rows, i, 6);
    lemma_table_columns(cols, rows, i, 7);
    lemma_table_columns(cols, rows, i, 8);
    lemma_table_columns(cols, rows, i, 9);
}

/// Each line of the victim listing holds, under each heading, that victim's
/// own value: id, name, group, country and discovery date, each shortened to its
/// column.
pub proof fn lemma_victim_table_columns(victims: Seq<VictimRow>, i: int)
    requires
        0 <= i < victims.len(),
    ensures
        ({
            let cols = victim_columns();
            let lines = table_lines(cols, victims.map_values(|x: VictimRow| victim_cells(x)));
            let v = victims[i];
            let line = lines[3 + i];
            &&& lines.len() == victims.len() + 4
            &&& column_text(lines[1], cols, 0) == cell("ID"@, 4)
            &&& column_text(line, cols, 0) == cell(spec_truncate(int_text(v.id as int), 4), 4)
            &&& column_text(lines[1], cols, 1) == cell("Victim"@, 25)
            &&& column_text(line, cols, 1) == cell(spec_truncate(v.name@, 25), 25)
            &&& column_text(lines[1], cols, 2) == cell("Group"@, 14)
            &&& column_text(line, cols, 2) == cell(spec_truncate(v.group_name@, 14), 14)
            &&& column_text(lines[1], cols, 3) == cell("Country"@, 7)
            &&& column_text(line, cols, 3) == cell(spec_truncate(v.country@, 7), 7)
            &&& column_text(lines[1], cols, 4) == cell("Date"@, 10)
            &&& column_text(line, cols, 4) == cell(spec_truncate(v.discovered_at@, 10), 10)
        }),
{
    reveal_strlit("ID");
    reveal_strlit("Victim");
    reveal_strlit("Group");
    reveal_strlit("Country");
    reveal_strlit("Date");
    let cols = victim_columns();
    let rows = victims.map_values(|x: VictimRow| victim_cells(x));
    assert forall|j: int| 0 <= j < cols.len() implies (#[trigger] cols[j]).0.len() <= cols[j].1 by {}
    lemma_table_columns(cols, rows, i, 0);
    lemma_table_columns(cols, rows, i, 1);
    lemma_table_columns(cols, rows, i, 2);
    lemma_table_columns(cols, rows, i, 3);
    lemma_table_columns(cols, rows, i, 4);
}

/// Each line of the per-country counts holds that country's own values: under
/// `Country` its name, under `Count` its number of victims, and in the third
/// column (whose heading, `Last Discovered`, is wider than the column) its last
/// discovery date, each shortened to its column.
pub proof fn lemma_country_table_columns(countries: Seq<CountryCount>, i: int)
    requires
        0 <= i < countries.len(),
    ensures
        ({
            let cols = country_columns();
            let lines = table_lines(cols, countries.map_values(|x: CountryCount| country_cells(x)));
            let c = countries[i];
            let line = lines[3 + i];
            &&& lines.len() == countries.len() + 4
            &&& column_text(lines[1], cols, 0) == cell("Country"@, 10)
            &&& column_text(line, cols, 0) == cell(spec_truncate(c.country@, 10), 10)
            &&& column_text(lines[1], cols, 1) == cell("Count"@, 5)
            &&& column_text(line, cols, 1) == cell(spec_truncate(int_text(c.count as int), 5), 5)
            &&& column_text(line, cols, 2) == cell(spec_truncate(c.last_discovered@, 10), 10)
        }),
{
    reveal_strlit("Country");
    reveal_strlit("Count");
    reveal_strlit("Last Discovered");
    let cols = country_columns();
    let rows = countries.map_values(|x: CountryCount| country_cells(x));
    assert forall|j: int| 0 <= j < 2 implies (#[trigger] cols[j]).0.len() <= cols[j].1 by {}
    lemma_table_columns(cols, rows, i, 0);
    lemma_table_columns(cols, rows, i, 1);
    lemma_table_columns(cols, rows, i, 2);
    assert(column_text(table_lines(cols, rows)[1], cols, 0nat) == cell(cols[0].0, cols[0].1));
    assert(column_text(table_lines(cols, rows)[1], cols, 1nat) == cell(cols[1].0, cols[1].1));
}

/// Each line of the ransom-note listing holds, under each heading, that note's
/// own value: its group's id, its group's name and its URL, each shortened to
/// its column.
pub proof fn lemma_note_table_columns(notes: Seq<NoteWithGroup>, i: int)
    requires
        0 <= i < notes.len(),
    ensures
        ({
            let cols = note_columns();
            let lines = table_lines(cols, notes.map_values(|x: NoteWithGroup| note_cells(x)));
            let n = notes[i];
            let line = lines[3 + i];
            &&& lines.len() == notes.len() + 4
            &&& column_text(lines[1], cols, 0) == cell("ID"@, 3)
            &&& column_text(line, cols, 0) == cell(spec_truncate(int_text(n.group_id as int), 3), 3)
            &&& column_text(lines[1], cols, 1) == cell("Group"@, 18)
            &&& column_text(line, cols, 1) == cell(spec_truncate(n.group_name@, 18), 18)
            &&& column_text(lines[1], cols, 2) == cell("URL"@, 20)
            &&& column_text(line, cols, 2) == cell(spec_truncate(n.url@, 20), 20)
        }),
{
    reveal_strlit("ID");
    reveal_strlit("Group");
    reveal_strlit("URL");
    let cols = note_columns();
    let rows = notes.map_values(|x: NoteWithGroup| note_cells(x));
    assert forall|j: int| 0 <= j < cols.len() implies (#[trigger] cols[j]).0.len() <= cols[j].1 by {}
    lemma_table_columns(cols, rows, i, 0);
    lemma_table_columns(cols, rows, i, 1);
    lemma_table_columns(cols, rows, i, 2);
}

/// Each line of a count table holds, under the key heading, the entry's key,
/// and under `Groups` its count, each shortened to its column.
pub proof fn lemma_count_table_columns(heading: Seq<char>, counts: Seq<(String, usize)>, i: int)
    requires
        0 <= i < counts.len(),
        heading.len() <= 50,
    ensures
        ({
            let cols = count_columns(heading);
            let lines = table_lines(cols, counts.map_values(|x: (String, usize)| count_cells(x)));
            let e = counts[i];
            let line = lines[3 + i];
            &&& lines.len() == counts.len() + 4
            &&& column_text(lines[1], cols, 0) == cell(heading, 50)
            &&& column_text(line, cols, 0) == cell(spec_truncate(e.0@, 50), 50)
            &&& column_text(lines[1], cols, 1) == cell("Groups"@, 6)
            &&& column_text(line, cols, 1) == cell(spec_truncate(decimal(e.1 as nat), 6), 6)
        }),
{
    reveal_strlit("Groups");
    let cols = count_columns(heading);
    let rows = counts.map_values(|x: (String, usize)| count_cells(x));
    assert(cols[0].0 == heading && cols[0].1 == 50);
    assert(cols[1].0 == "Groups"@ && cols[1].1 == 6);
    assert forall|j: int| 0 <= j < cols.len() implies (#[trigger] cols[j]).0.len() <= cols[j].1 by {
        if j == 0 {
            assert(cols[j] == cols[0]);
        } else {
            assert(cols[j] == cols[1]);
        }
    }
    lemma_table_columns(cols, rows, i, 0);
    lemma_table_columns(cols, rows, i, 1);
}

} // verus!

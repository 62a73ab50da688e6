//! A group's tools and MITRE ATT&CK techniques, as the trackers publish them
//! in JSON: the lines of a group's profile and the counts across groups.
//!
//! Tools come as an array of objects that map a category to an array of tool
//! names; techniques come as an array of tactics, each with `tactic_name`,
//! `tactic_id` and an array `techniques` of objects with `technique_id` and
//! `technique_name`.
use vstd::prelude::*;

use crate::json::{
    field, get_field, get_str_field_or_dash, json_array_parse, parse_json_array, str_field_or_dash,
    str_of, JsonValue,
};
use crate::summary::{
    distinct_in_order, keys_once_per_row, lemma_ranking_counts_rows, push_distinct, rank_keys,
    ranks_rows,
};
use crate::text::{join, join_strings, opt_view, views};

verus! {

/// How many entries the cross-group counts keep.
pub const TOP_ENTRIES: usize = 30;

proof fn lemma_views_push(v: Seq<String>, x: String)
    ensures
        views(v.push(x)) == views(v).push(x@),
{
    assert(views(v.push(x)) =~= views(v).push(x@));
}

// ---------------------------------------------------------------------
// Keys counted across groups
// ---------------------------------------------------------------------

/// `category: tool` for each tool name among `items`.
pub open spec fn tool_keys_in(cat: Seq<char>, items: Seq<JsonValue>) -> Seq<Seq<char>>
    decreases items.len(),
{
    if items.len() == 0 {
        Seq::empty()
    } else {
        tool_keys_in(cat, items.drop_last()) + match str_of(items.last()) {
            Some(name) => seq![cat + ": "@ + name],
            None => Seq::empty(),
        }
    }
}

/// The tool keys of the members of one object whose values are arrays.
pub open spec fn tool_keys_of_members(entries: Seq<(String, JsonValue)>) -> Seq<Seq<char>>
    decreases entries.len(),
{
    if entries.len() == 0 {
        Seq::empty()
    } else {
        tool_keys_of_members(entries.drop_last()) + match entries.last().1 {
            JsonValue::Array(items) => tool_keys_in(entries.last().0@, items@),
            _ => Seq::empty(),
        }
    }
}

/// The tool keys of the objects of a tools array.
pub open spec fn tool_keys_of(arr: Seq<JsonValue>) -> Seq<Seq<char>>
    decreases arr.len(),
{
    if arr.len() == 0 {
        Seq::empty()
    } else {
        tool_keys_of(arr.drop_last()) + match arr.last() {
            JsonValue::Object(entries) => tool_keys_of_members(entries@),
            _ => Seq::empty(),
        }
    }
}

/// The tool keys of each group's tools text: those of the JSON array it holds,
/// none when it holds none.
pub open spec fn tool_key_lists(rows: Seq<Seq<char>>) -> Seq<Seq<Seq<char>>>
    decreases rows.len(),
{
    if rows.len() == 0 {
        Seq::empty()
    } else {
        tool_key_lists(rows.drop_last()).push(
            match json_array_parse(rows.last()) {
                Some(arr) => tool_keys_of(arr),
                None => Seq::empty(),
            },
        )
    }
}

/// The tool keys of every group's tools text, each group's keys taken once.
pub open spec fn tool_keys_of_rows(rows: Seq<Seq<char>>) -> Seq<Seq<char>> {
    keys_once_per_row(tool_key_lists(rows))
}

/// `technique_id technique_name` (a missing one written `-`) for each technique.
pub open spec fn technique_keys_in(techs: Seq<JsonValue>) -> Seq<Seq<char>>
    decreases techs.len(),
{
    if techs.len() == 0 {
        Seq::empty()
    } else {
        technique_keys_in(techs.drop_last()).push(
            str_field_or_dash(techs.last(), "technique_id"@) + " "@ + str_field_or_dash(
                techs.last(),
                "technique_name"@,
            ),
        )
    }
}

/// The technique keys of the tactics of a TTPs array.
pub open spec fn technique_keys_of(arr: Seq<JsonValue>) -> Seq<Seq<char>>
    decreases arr.len(),
{
    if arr.len() == 0 {
        Seq::empty()
    } else {
        technique_keys_of(arr.drop_last()) + match field(arr.last(), "techniques"@) {
            Some(JsonValue::Array(techs)) => technique_keys_in(techs@),
            _ => Seq::empty(),
        }
    }
}

/// The technique keys of each group's TTPs text: those of the JSON array it
/// holds, none when it holds none.
pub open spec fn technique_key_lists(rows: Seq<Seq<char>>) -> Seq<Seq<Seq<char>>>
    decreases rows.len(),
{
    if rows.len() == 0 {
        Seq::empty()
    } else {
        technique_key_lists(rows.drop_last()).push(
            match json_array_parse(rows.last()) {
                Some(arr) => technique_keys_of(arr),
                None => Seq::empty(),
            },
        )
    }
}

/// The technique keys of every group's TTPs text, each group's keys taken once.
pub open spec fn technique_keys_of_rows(rows: Seq<Seq<char>>) -> Seq<Seq<char>> {
    keys_once_per_row(technique_key_lists(rows))
}

fn push_tool_keys_in(out: &mut Vec<String>, cat: &String, items: &Vec<JsonValue>)
    ensures
        views(final(out)@) == views(old(out)@) + tool_keys_in(cat@, items@),
{
    let n = items.len();
    let mut i: usize = 0;
    while i < n
        invariant
            i <= n,
            n == items@.len(),
            views(out@) == views(old(out)@) + tool_keys_in(cat@, items@.take(i as int)),
        decreases n - i,
    {
        proof {
            assert(items@.take(i + 1).drop_last() =~= items@.take(i as int));
        }
        match &items[i] {
            JsonValue::Str(name) => {
                let mut key = cat.clone();
                key.append(": ");
                key.append(name.as_str());
                proof {
                    lemma_views_push(out@, key);
                }
                out.push(key);
            },
            _ => {},
        }
        i = i + 1;
    }
    proof {
        assert(items@.take(n as int) =~= items@);
    }
}

fn push_tool_keys_of_members(out: &mut Vec<String>, entries: &Vec<(String, JsonValue)>)
    ensures
        views(final(out)@) == views(old(out)@) + tool_keys_of_members(entries@),
{
    let n = entries.len();
    let mut i: usize = 0;
    while i < n
        invariant
            i <= n,
            n == entries@.len(),
            views(out@) == views(old(out)@) + tool_keys_of_members(entries@.take(i as int)),
        decreases n - i,
    {
        proof {
            assert(entries@.take(i + 1).drop_last() =~= entries@.take(i as int));
        }
        match &entries[i].1 {
            JsonValue::Array(items) => {
                push_tool_keys_in(out, &entries[i].0, items);
            },
            _ => {},
        }
        i = i + 1;
    }
    proof {
        assert(entries@.take(n as int) =~= entries@);
    }
}

/// The `category: tool` keys of a parsed tools array, in order.
pub fn tool_keys_of_array(arr: &Vec<JsonValue>) -> (r: Vec<String>)
    ensures
        views(r@) == tool_keys_of(arr@),
{
    let mut out: Vec<String> = Vec::new();
    let n = arr.len();
    let mut i: usize = 0;
    while i < n
        invariant
            i <= n,
            n == arr@.len(),
            views(out@) == tool_keys_of(arr@.take(i as int)),
        decreases n - i,
    {
        proof {
            assert(arr@.take(i + 1).drop_last() =~= arr@.take(i as int));
        }
        match &arr[i] {
            JsonValue::Object(entries) => {
                push_tool_keys_of_members(&mut out, entries);
            },
            _ => {
                proof {
                    assert(tool_keys_of(arr@.take(i + 1)) =~= tool_keys_of(arr@.take(i as int)));
                }
            },
        }
        i = i + 1;
    }
    proof {
        assert(arr@.take(n as int) =~= arr@);
    }
    out
}

/// One group's keys, each taken once, appended to the keys of the groups before.
proof fn lemma_next_row(lists: Seq<Seq<Seq<char>>>, row: Seq<Seq<char>>)
    ensures
        keys_once_per_row(lists.push(row)) == keys_once_per_row(lists) + distinct_in_order(row),
{
    assert(lists.push(row).drop_last() =~= lists);
}

/// The `category: tool` keys of every group's tools text, each group's keys
/// taken once, group after group.
pub fn tool_keys(rows: &Vec<String>) -> (r: Vec<String>)
    ensures
        views(r@) == tool_keys_of_rows(views(rows@)),
{
    let mut out: Vec<String> = Vec::new();
    let n = rows.len();
    let mut i: usize = 0;
    while i < n
        invariant
            i <= n,
            n == rows@.len(),
            views(out@) == tool_keys_of_rows(views(rows@.take(i as int))),
        decreases n - i,
    {
        proof {
            assert(views(rows@.take(i + 1)).drop_last() =~= views(rows@.take(i as int)));
            assert(views(rows@.take(i + 1)).last() == rows@[i as int]@);
        }
        let ks: Vec<String> = match parse_json_array(rows[i].as_str()) {
            Some(arr) => tool_keys_of_array(&arr),
            None => {
                let e: Vec<String> = Vec::new();
                proof {
                    assert(views(e@) =~= Seq::<Seq<char>>::empty());
                }
                e
            },
        };
        proof {
            lemma_next_row(tool_key_lists(views(rows@.take(i as int))), views(ks@));
        }
        push_distinct(&mut out, &ks);
        i = i + 1;
    }
    proof {
        assert(rows@.take(n as int) =~= rows@);
    }
    out
}

fn push_technique_keys_in(out: &mut Vec<String>, techs: &Vec<JsonValue>)
    ensures
        views(final(out)@) == views(old(out)@) + technique_keys_in(techs@),
{
    let n = techs.len();
    let mut i: usize = 0;
    while i < n
        invariant
            i <= n,
            n == techs@.len(),
            views(out@) == views(old(out)@) + technique_keys_in(techs@.take(i as int)),
        decreases n - i,
    {
        proof {
            assert(techs@.take(i + 1).drop_last() =~= techs@.take(i as int));
        }
        let mut key = get_str_field_or_dash(&techs[i], "technique_id");
        key.append(" ");
        let name = get_str_field_or_dash(&techs[i], "technique_name");
        key.append(name.as_str());
        proof {
            lemma_views_push(out@, key);
        }
        out.push(key);
        i = i + 1;
    }
    proof {
        assert(techs@.take(n as int) =~= techs@);
    }
}

/// The `technique_id technique_name` keys of a parsed TTPs array, in order.
pub fn technique_keys_of_array(arr: &Vec<JsonValue>) -> (r: Vec<String>)
    ensures
        views(r@) == technique_keys_of(arr@),
{
    let mut out: Vec<String> = Vec::new();
    let n = arr.len();
    let mut i: usize = 0;
    while i < n
        invariant
            i <= n,
            n == arr@.len(),
            views(out@) == technique_keys_of(arr@.take(i as int)),
        decreases n - i,
    {
        proof {
            assert(arr@.take(i + 1).drop_last() =~= arr@.take(i as int));
        }
        match get_field(&arr[i], "techniques") {
            Some(JsonValue::Array(techs)) => {
                push_technique_keys_in(&mut out, techs);
            },
            _ => {
                proof {
                    assert(technique_keys_of(arr@.take(i + 1)) =~= technique_keys_of(
                        arr@.take(i as int),
                    ));
                }
            },
        }
        i = i + 1;
    }
    proof {
        assert(arr@.take(n as int) =~= arr@);
    }
    out
}

/// The `technique_id technique_name` keys of every group's TTPs text, each
/// group's keys taken once, group after group.
pub fn technique_keys(rows: &Vec<String>) -> (r: Vec<String>)
    ensures
        views(r@) == technique_keys_of_rows(views(rows@)),
{
    let mut out: Vec<String> = Vec::new();
    let n = rows.len();
    let mut i: usize = 0;
    while i < n
        invariant
            i <= n,
            n == rows@.len(),
            views(out@) == technique_keys_of_rows(views(rows@.take(i as int))),
        decreases n - i,
    {
        proof {
            assert(views(rows@.take(i + 1)).drop_last() =~= views(rows@.take(i as int)));
            assert(views(rows@.take(i + 1)).last() == rows@[i as int]@);
        }
        let ks: Vec<String> = match parse_json_array(rows[i].as_str()) {
            Some(arr) => technique_keys_of_array(&arr),
            None => {
                let e: Vec<String> = Vec::new();
                proof {
                    assert(views(e@) =~= Seq::<Seq<char>>::empty());
                }
                e
            },
        };
        proof {
            lemma_next_row(technique_key_lists(views(rows@.take(i as int))), views(ks@));
        }
        push_distinct(&mut out, &ks);
        i = i + 1;
    }
    proof {
        assert(rows@.take(n as int) =~= rows@);
    }
    out
}

/// The most used tools across groups: `category: tool` with the number of
/// groups that list it, most listed first, at most `TOP_ENTRIES` of them.
pub fn tool_counts(tools_json: &Vec<String>) -> (r: Vec<(String, usize)>)
    ensures
        ranks_rows(r@, tool_key_lists(views(tools_json@)), TOP_ENTRIES as nat),
{
    let keys = tool_keys(tools_json);
    let r = rank_keys(&keys, TOP_ENTRIES);
    proof {
        lemma_ranking_counts_rows(r@, tool_key_lists(views(tools_json@)), TOP_ENTRIES as nat);
    }
    r
}

/// The most used techniques across groups: `technique_id technique_name` with
/// the number of groups that list it, most listed first, at most `TOP_ENTRIES`.
pub fn technique_counts(ttps_json: &Vec<String>) -> (r: Vec<(String, usize)>)
    ensures
        ranks_rows(r@, technique_key_lists(views(ttps_json@)), TOP_ENTRIES as nat),
{
    let keys = technique_keys(ttps_json);
    let r = rank_keys(&keys, TOP_ENTRIES);
    proof {
        lemma_ranking_counts_rows(r@, technique_key_lists(views(ttps_json@)), TOP_ENTRIES as nat);
    }
    r
}

// ---------------------------------------------------------------------
// A group's profile lines
// ---------------------------------------------------------------------

/// The tool names among `items` (other values are skipped).
pub open spec fn tool_names(items: Seq<JsonValue>) -> Seq<Seq<char>>
    decreases items.len(),
{
    if items.len() == 0 {
        Seq::empty()
    } else {
        tool_names(items.drop_last()) + match str_of(items.last()) {
            Some(name) => seq![name],
            None => Seq::empty(),
        }
    }
}

/// `- **category**: tool, tool` for each member of an object whose value is an array.
pub open spec fn tool_lines_of_members(entries: Seq<(String, JsonValue)>) -> Seq<Seq<char>>
    decreases entries.len(),
{
    if entries.len() == 0 {
        Seq::empty()
    } else {
        tool_lines_of_members(entries.drop_last()) + match entries.last().1 {
            JsonValue::Array(items) => seq![
                "- **"@ + entries.last().0@ + "**: "@ + join(tool_names(items@), ", "@),
            ],
            _ => Seq::empty(),
        }
    }
}

/// The tool lines of the objects of a tools array.
pub open spec fn tool_lines(arr: Seq<JsonValue>) -> Seq<Seq<char>>
    decreases arr.len(),
{
    if arr.len() == 0 {
        Seq::empty()
    } else {
        tool_lines(arr.drop_last()) + match arr.last() {
            JsonValue::Object(entries) => tool_lines_of_members(entries@),
            _ => Seq::empty(),
        }
    }
}

/// The technique names among `techs` (techniques without one are skipped).
pub open spec fn technique_names(techs: Seq<JsonValue>) -> Seq<Seq<char>>
    decreases techs.len(),
{
    if techs.len() == 0 {
        Seq::empty()
    } else {
        technique_names(techs.drop_last()) + match field(techs.last(), "technique_name"@) {
            Some(x) => match str_of(x) {
                Some(name) => seq![name],
                None => Seq::empty(),
            },
            None => Seq::empty(),
        }
    }
}

/// The heading line of a tactic: `- **name (id)**: `.
pub open spec fn tactic_heading(t: JsonValue) -> Seq<char> {
    "- **"@ + str_field_or_dash(t, "tactic_name"@) + " ("@ + str_field_or_dash(t, "tactic_id"@)
        + ")**: "@
}

/// For each tactic its heading, followed, when it has a `techniques` array, by
/// an indented line of its technique names.
pub open spec fn tactic_lines(arr: Seq<JsonValue>) -> Seq<Seq<char>>
    decreases arr.len(),
{
    if arr.len() == 0 {
        Seq::empty()
    } else {
        tactic_lines(arr.drop_last()) + (seq![tactic_heading(arr.last())] + match field(
            arr.last(),
            "techniques"@,
        ) {
            Some(JsonValue::Array(techs)) => seq!["  "@ + join(technique_names(techs@), ", "@)],
            _ => Seq::empty(),
        })
    }
}

/// Lines joined by newlines, or `-` when there are none.
pub open spec fn lines_or_dash(lines: Seq<Seq<char>>) -> Seq<char> {
    if lines.len() == 0 {
        "-"@
    } else {
        join(lines, "\n"@)
    }
}

/// The tools section of a group's profile: its tool lines, or `-` when the
/// text is missing, is not a JSON array, is an empty array or yields no line.
pub open spec fn tools_text(tools: Option<Seq<char>>) -> Seq<char> {
    match tools {
        Some(t) => match json_array_parse(t) {
            Some(arr) => if arr.len() > 0 {
                lines_or_dash(tool_lines(arr))
            } else {
                "-"@
            },
            None => "-"@,
        },
        None => "-"@,
    }
}

/// The TTPs section of a group's profile: its tactic lines, or `-` when the
/// text is missing, is not a JSON array or is an empty array.
pub open spec fn ttps_text(ttps: Option<Seq<char>>) -> Seq<char> {
    match ttps {
        Some(t) => match json_array_parse(t) {
            Some(arr) => if arr.len() > 0 {
                lines_or_dash(tactic_lines(arr))
            } else {
                "-"@
            },
            None => "-"@,
        },
        None => "-"@,
    }
}

fn collect_tool_names(items: &Vec<JsonValue>) -> (r: Vec<String>)
    ensures
        views(r@) == tool_names(items@),
{
    let mut out: Vec<String> = Vec::new();
    let n = items.len();
    let mut i: usize = 0;
    while i < n
        invariant
            i <= n,
            n == items@.len(),
            views(out@) == tool_names(items@.take(i as int)),
        decreases n - i,
    {
        proof {
            assert(items@.take(i + 1).drop_last() =~= items@.take(i as int));
        }
        match &items[i] {
            JsonValue::Str(name) => {
                let copy = name.clone();
                proof {
                    lemma_views_push(out@, copy);
                }
                out.push(copy);
            },
            _ => {},
        }
        i = i + 1;
    }
    proof {
        assert(items@.take(n as int) =~= items@);
    }
    out
}

fn push_tool_lines_of_members(out: &mut Vec<String>, entries: &Vec<(String, JsonValue)>)
    ensures
        views(final(out)@) == views(old(out)@) + tool_lines_of_members(entries@),
{
    let n = entries.len();
    let mut i: usize = 0;
    while i < n
        invariant
            i <= n,
            n == entries@.len(),
            views(out@) == views(old(out)@) + tool_lines_of_members(entries@.take(i as int)),
        decreases n - i,
    {
        proof {
            assert(entries@.take(i + 1).drop_last() =~= entries@.take(i as int));
        }
        match &entries[i].1 {
            JsonValue::Array(items) => {
                let names = collect_tool_names(items);
                let joined = join_strings(&names, ", ");
                let mut line = "- **".to_owned();
                line.append(entries[i].0.as_str());
                line.append("**: ");
                line.append(joined.as_str());
                proof {
                    lemma_views_push(out@, line);
                }
                out.push(line);
            },
            _ => {},
        }
        i = i + 1;
    }
    proof {
        assert(entries@.take(n as int) =~= entries@);
    }
}

/// The tool lines of a parsed tools array.
pub fn tool_lines_of_array(arr: &Vec<JsonValue>) -> (r: Vec<String>)
    ensures
        views(r@) == tool_lines(arr@),
{
    let mut out: Vec<String> = Vec::new();
    let n = arr.len();
    let mut i: usize = 0;
    while i < n
        invariant
            i <= n,
            n == arr@.len(),
            views(out@) == tool_lines(arr@.take(i as int)),
        decreases n - i,
    {
        proof {
            assert(arr@.take(i + 1).drop_last() =~= arr@.take(i as int));
        }
        match &arr[i] {
            JsonValue::Object(entries) => {
                push_tool_lines_of_members(&mut out, entries);
            },
            _ => {},
        }
        i = i + 1;
    }
    proof {
        assert(arr@.take(n as int) =~= arr@);
    }
    out
}

fn collect_technique_names(techs: &Vec<JsonValue>) -> (r: Vec<String>)
    ensures
        views(r@) == technique_names(techs@),
{
    let mut out: Vec<String> = Vec::new();
    let n = techs.len();
    let mut i: usize = 0;
    while i < n
        invariant
            i <= n,
            n == techs@.len(),
            views(out@) == technique_names(techs@.take(i as int)),
        decreases n - i,
    {
        proof {
            assert(techs@.take(i + 1).drop_last() =~= techs@.take(i as int));
        }
        match get_field(&techs[i], "technique_name") {
            Some(JsonValue::Str(name)) => {
                let copy = name.clone();
                proof {
                    lemma_views_push(out@, copy);
                }
                out.push(copy);
            },
            _ => {},
        }
        i = i + 1;
    }
    proof {
        assert(techs@.take(n as int) =~= techs@);
    }
    out
}

/// The tactic lines of a parsed TTPs array.
pub fn tactic_lines_of_array(arr: &Vec<JsonValue>) -> (r: Vec<String>)
    ensures
        views(r@) == tactic_lines(arr@),
{
    let mut out: Vec<String> = Vec::new();
    let n = arr.len();
    let mut i: usize = 0;
    while i < n
        invariant
            i <= n,
            n == arr@.len(),
            views(out@) == tactic_lines(arr@.take(i as int)),
        decreases n - i,
    {
        proof {
            assert(arr@.take(i + 1).drop_last() =~= arr@.take(i as int));
        }
        let ghost before = views(out@);
        let mut heading = "- **".to_owned();
        let name = get_str_field_or_dash(&arr[i], "tactic_name");
        heading.append(name.as_str());
        heading.append(" (");
        let id = get_str_field_or_dash(&arr[i], "tactic_id");
        heading.append(id.as_str());
        heading.append(")**: ");
        proof {
            lemma_views_push(out@, heading);
        }
        out.push(heading);
        match get_field(&arr[i], "techniques") {
            Some(JsonValue::Array(techs)) => {
                let names = collect_technique_names(techs);
                let joined = join_strings(&names, ", ");
                let mut line = "  ".to_owned();
                line.append(joined.as_str());
                proof {
                    lemma_views_push(out@, line);
                }
                out.push(line);
            },
            _ => {},
        }
        proof {
            assert(views(out@) =~= tactic_lines(arr@.take(i + 1)));
        }
        i = i + 1;
    }
    proof {
        assert(arr@.take(n as int) =~= arr@);
    }
    out
}

fn lines_or_dash_text(lines: &Vec<String>) -> (r: String)
    ensures
        r@ == lines_or_dash(views(lines@)),
{
    if lines.len() == 0 {
        "-".to_owned()
    } else {
        join_strings(lines, "\n")
    }
}

/// The tools section of a group's profile.
pub fn tools_text_of(tools: &Option<String>) -> (r: String)
    ensures
        r@ == tools_text(opt_view(*tools)),
{
    match tools {
        Some(t) => match parse_json_array(t.as_str()) {
            Some(arr) => {
                if arr.len() > 0 {
                    let lines = tool_lines_of_array(&arr);
                    lines_or_dash_text(&lines)
                } else {
                    "-".to_owned()
                }
            },
            None => "-".to_owned(),
        },
        None => "-".to_owned(),
    }
}

/// The TTPs section of a group's profile.
pub fn ttps_text_of(ttps: &Option<String>) -> (r: String)
    ensures
        r@ == ttps_text(opt_view(*ttps)),
{
    match ttps {
        Some(t) => match parse_json_array(t.as_str()) {
            Some(arr) => {
                if arr.len() > 0 {
                    let lines = tactic_lines_of_array(&arr);
                    lines_or_dash_text(&lines)
                } else {
                    "-".to_owned()
                }
            },
            None => "-".to_owned(),
        },
        None => "-".to_owned(),
    }
}

// ---------------------------------------------------------------------
// Laws of the keys and lines
// ---------------------------------------------------------------------

/// The keys of two tools arrays one after the other are the keys of the first
/// followed by those of the second.
pub proof fn lemma_tool_keys_concat(a: Seq<JsonValue>, b: Seq<JsonValue>)
    ensures
        tool_keys_of(a + b) == tool_keys_of(a) + tool_keys_of(b),
    decreases b.len(),
{
    if b.len() == 0 {
        assert(a + b =~= a);
        assert(tool_keys_of(a) + tool_keys_of(b) =~= tool_keys_of(a));
    } else {
        lemma_tool_keys_concat(a, b.drop_last());
        assert((a + b).drop_last() =~= a + b.drop_last());
        assert((a + b).last() == b.last());
        assert(tool_keys_of(a + b) =~= tool_keys_of(a) + tool_keys_of(b));
    }
}

/// The keys of a category's list of tool names: `category: name` for each
/// name, in order.
pub proof fn lemma_tool_keys_of_names(cat: Seq<char>, items: Seq<JsonValue>)
    requires
        forall|i: int| 0 <= i < items.len() ==> (#[trigger] items[i]) is Str,
    ensures
        tool_keys_in(cat, items) == items.map_values(|x: JsonValue| cat + ": "@ + x->Str_0@),
    decreases items.len(),
{
    if items.len() > 0 {
        let rest = items.drop_last();
        assert forall|i: int| 0 <= i < rest.len() implies (#[trigger] rest[i]) is Str by {
            assert(rest[i] == items[i]);
        }
        lemma_tool_keys_of_names(cat, rest);
        assert(items.last() == items[items.len() - 1]);
        assert(tool_keys_in(cat, items) =~= items.map_values(
            |x: JsonValue| cat + ": "@ + x->Str_0@,
        ));
    }
}

/// An object with one category whose value is a list of tool names gives
/// `category: name` for each name, in order.
pub proof fn lemma_tool_keys_of_category(t: JsonValue)
    requires
        t is Object,
        t->Object_0@.len() == 1,
        t->Object_0@[0].1 is Array,
        forall|i: int|
            0 <= i < t->Object_0@[0].1->Array_0@.len() ==> (#[trigger] t->Object_0@[0].1->Array_0@[i]) is Str,
    ensures
        ({
            let entries = t->Object_0@;
            let items = entries[0].1->Array_0@;
            tool_keys_of(seq![t]) == items.map_values(
                |x: JsonValue| entries[0].0@ + ": "@ + x->Str_0@,
            )
        }),
{
    let entries = t->Object_0@;
    let items = entries[0].1->Array_0@;
    lemma_tool_keys_of_names(entries[0].0@, items);
    let one = seq![t];
    assert(one.last() == t);
    assert(one.drop_last() =~= Seq::<JsonValue>::empty());
    assert(tool_keys_of(one.drop_last()) == Seq::<Seq<char>>::empty());
    assert(entries.last() == entries[0]);
    assert(entries.drop_last() =~= Seq::<(String, JsonValue)>::empty());
    assert(tool_keys_of_members(entries.drop_last()) == Seq::<Seq<char>>::empty());
    assert(tool_keys_of_members(entries) =~= tool_keys_in(entries[0].0@, items));
    assert(tool_keys_of(one) =~= tool_keys_of_members(entries));
}

/// The keys of two TTPs arrays one after the other are the keys of the first
/// followed by those of the second.
pub proof fn lemma_technique_keys_concat(a: Seq<JsonValue>, b: Seq<JsonValue>)
    ensures
        technique_keys_of(a + b) == technique_keys_of(a) + technique_keys_of(b),
    decreases b.len(),
{
    if b.len() == 0 {
        assert(a + b =~= a);
        assert(technique_keys_of(a) + technique_keys_of(b) =~= technique_keys_of(a));
    } else {
        lemma_technique_keys_concat(a, b.drop_last());
        assert((a + b).drop_last() =~= a + b.drop_last());
        assert((a + b).last() == b.last());
        assert(technique_keys_of(a + b) =~= technique_keys_of(a) + technique_keys_of(b));
    }
}

/// A tactic with one technique whose `technique_id` and `technique_name` are
/// strings gives the key `id name`; a missing or non-string one is written `-`.
pub proof fn lemma_technique_key_of_tactic(t: JsonValue, tech: JsonValue)
    requires
        field(t, "techniques"@) matches Some(JsonValue::Array(techs)) && techs@ == seq![tech],
    ensures
        technique_keys_of(seq![t]) == seq![
            (match field(tech, "technique_id"@) {
                Some(JsonValue::Str(id)) => id@,
                _ => "-"@,
            }) + " "@ + (match field(tech, "technique_name"@) {
                Some(JsonValue::Str(name)) => name@,
                _ => "-"@,
            }),
        ],
{
    let one = seq![t];
    let techs = seq![tech];
    assert(one.last() == t);
    assert(one.drop_last() =~= Seq::<JsonValue>::empty());
    assert(technique_keys_of(one.drop_last()) == Seq::<Seq<char>>::empty());
    assert(techs.last() == tech);
    assert(techs.drop_last() =~= Seq::<JsonValue>::empty());
    assert(technique_keys_in(techs.drop_last()) == Seq::<Seq<char>>::empty());
    assert(technique_keys_of(one) =~= technique_keys_in(techs));
}

/// An object with one category whose value is a list of tool names gives the
/// line `- **category**: name, name`.
pub proof fn lemma_tool_line_of_category(t: JsonValue)
    requires
        t is Object,
        t->Object_0@.len() == 1,
        t->Object_0@[0].1 is Array,
        forall|i: int|
            0 <= i < t->Object_0@[0].1->Array_0@.len() ==> (#[trigger] t->Object_0@[0].1->Array_0@[i]) is Str,
    ensures
        ({
            let entries = t->Object_0@;
            let items = entries[0].1->Array_0@;
            tool_lines(seq![t]) == seq![
                "- **"@ + entries[0].0@ + "**: "@ + join(
                    items.map_values(|x: JsonValue| x->Str_0@),
                    ", "@,
                ),
            ]
        }),
{
    let entries = t->Object_0@;
    let items = entries[0].1->Array_0@;
    lemma_tool_names_all(items);
    let one = seq![t];
    assert(one.last() == t);
    assert(one.drop_last() =~= Seq::<JsonValue>::empty());
    assert(tool_lines(one.drop_last()) == Seq::<Seq<char>>::empty());
    assert(entries.last() == entries[0]);
    assert(entries.drop_last() =~= Seq::<(String, JsonValue)>::empty());
    assert(tool_lines_of_members(entries.drop_last()) == Seq::<Seq<char>>::empty());
    assert(tool_lines(one) =~= tool_lines_of_members(entries));
}

proof fn lemma_tool_names_all(items: Seq<JsonValue>)
    requires
        forall|i: int| 0 <= i < items.len() ==> (#[trigger] items[i]) is Str,
    ensures
        tool_names(items) == items.map_values(|x: JsonValue| x->Str_0@),
    decreases items.len(),
{
    if items.len() > 0 {
        let rest = items.drop_last();
        assert forall|i: int| 0 <= i < rest.len() implies (#[trigger] rest[i]) is Str by {
            assert(rest[i] == items[i]);
        }
        lemma_tool_names_all(rest);
        assert(items.last() == items[items.len() - 1]);
        assert(tool_names(items) =~= items.map_values(|x: JsonValue| x->Str_0@));
    }
}

/// A tactic without a `techniques` array gives one line, its heading
/// `- **name (id)**: ` (a missing or non-string name or id written `-`).
pub proof fn lemma_tactic_heading_line(t: JsonValue)
    requires
        !(field(t, "techniques"@) matches Some(JsonValue::Array(_))),
    ensures
        tactic_lines(seq![t]) == seq![
            "- **"@ + (match field(t, "tactic_name"@) {
                Some(JsonValue::Str(name)) => name@,
                _ => "-"@,
            }) + " ("@ + (match field(t, "tactic_id"@) {
                Some(JsonValue::Str(id)) => id@,
                _ => "-"@,
            }) + ")**: "@,
        ],
{
    let one = seq![t];
    assert(one.last() == t);
    assert(one.drop_last() =~= Seq::<JsonValue>::empty());
    assert(tactic_lines(one.drop_last()) == Seq::<Seq<char>>::empty());
    assert(tactic_lines(one) =~= seq![tactic_heading(t)]);
}

} // verus!

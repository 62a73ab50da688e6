//! Records read from the trackers and the decisions of a synchronisation run.
//!
//! A run stores every group of the group list with its sites, completes the
//! groups' contacts and references from the second tracker, stores the recent
//! victims of known groups and the ransom notes of known groups. Group names
//! are matched without regard to case. `SyncState` holds what a run has
//! learnt so far and tells, for each record, what is to be written.
use vstd::prelude::*;

use crate::db::{references_text, VictimData};
use crate::text::{contains_str, contains_text, opt_view, views};

verus! {

/// A group as the group list of the first tracker describes it.
pub struct RansomwareLiveGroup {
    pub name: String,
    pub description: Option<String>,
    /// The tools as JSON text.
    pub tools: Option<String>,
    /// The TTPs as JSON text.
    pub ttps: Option<String>,
    pub locations: Vec<Location>,
}

/// A site of a group.
pub struct Location {
    pub slug: Option<String>,
    pub fqdn: Option<String>,
    pub title: Option<String>,
    pub available: Option<bool>,
    pub updated: Option<String>,
    pub location_type: Option<String>,
}

/// A group as the second tracker describes it: contacts and reference links.
pub struct RansomlookGroup {
    pub profile: Option<Vec<String>>,
    pub tox: Option<String>,
    pub telegram: Option<String>,
    pub jabber: Option<String>,
    pub pgp: Option<String>,
}

/// A victim from the recent-victims list.
pub struct Victim {
    pub name: Option<String>,
    pub group_name: Option<String>,
    pub country: Option<String>,
    pub activity: Option<String>,
    pub description: Option<String>,
    pub post_url: Option<String>,
    pub website: Option<String>,
    pub screenshot: Option<String>,
    pub data_size: Option<String>,
    pub ransom: Option<String>,
    pub discovered: Option<String>,
    pub published: Option<String>,
}

/// A ransom note listed on the tracker's ransom-note index page.
pub struct RansomNote {
    pub group_name: String,
    pub filename: String,
    pub file_type: String,
    pub url: String,
}

/// What a run stored: groups, sites, victims and notes.
pub struct SyncStats {
    pub groups: usize,
    pub urls: usize,
    pub victims: usize,
    pub notes: usize,
}

impl Default for SyncStats {
    fn default() -> (r: SyncStats)
        ensures
            r.groups == 0 && r.urls == 0 && r.victims == 0 && r.notes == 0,
    {
        SyncStats { groups: 0, urls: 0, victims: 0, notes: 0 }
    }
}

// ---------------------------------------------------------------------
// Case-insensitive group names
// ---------------------------------------------------------------------

/// What `str::to_lowercase` gives back for a text.
pub uninterp spec fn lowercase(s: Seq<char>) -> Seq<char>;

/// Calls `str::to_lowercase`; the result is named by `lowercase`.
#[verifier::external_body]
fn to_lowercase(s: &str) -> (r: String)
    ensures
        r@ == lowercase(s@),
{
    s.to_lowercase()
}

/// The map held by a list of (key, id) entries whose keys are distinct.
pub open spec fn entries_map(entries: Seq<(String, i64)>) -> Map<Seq<char>, i64>
    decreases entries.len(),
{
    if entries.len() == 0 {
        Map::empty()
    } else {
        entries_map(entries.drop_last()).insert(entries.last().0@, entries.last().1)
    }
}

/// Group ids by group name.
pub struct GroupIndex {
    entries: Vec<(String, i64)>,
}

impl View for GroupIndex {
    type V = Map<Seq<char>, i64>;

    closed spec fn view(&self) -> Map<Seq<char>, i64> {
        entries_map(self.entries@)
    }
}

proof fn lemma_entries_map_find(entries: Seq<(String, i64)>, k: Seq<char>)
    requires
        forall|i: int, j: int|
            0 <= i < j < entries.len() ==> (#[trigger] entries[i]).0@ != (#[trigger] entries[j]).0@,
    ensures
        entries_map(entries).contains_key(k) <==> exists|i: int|
            0 <= i < entries.len() && (#[trigger] entries[i]).0@ == k,
        forall|i: int|
            0 <= i < entries.len() && (#[trigger] entries[i]).0@ == k ==> entries_map(entries)[k]
                == entries[i].1,
    decreases entries.len(),
{
    if entries.len() > 0 {
        let rest = entries.drop_last();
        lemma_entries_map_find(rest, k);
        assert forall|i: int| 0 <= i < entries.len() && (#[trigger] entries[i]).0@ == k implies entries_map(
            entries,
        )[k] == entries[i].1 by {
            if i < entries.len() - 1 {
                assert(rest[i] == entries[i]);
            }
        }
        if entries_map(entries).contains_key(k) && entries.last().0@ != k {
            assert(entries_map(rest).contains_key(k));
            let i = choose|i: int| 0 <= i < rest.len() && (#[trigger] rest[i]).0@ == k;
            assert(entries[i] == rest[i]);
        }
        if exists|i: int| 0 <= i < entries.len() && (#[trigger] entries[i]).0@ == k {
            let i = choose|i: int| 0 <= i < entries.len() && (#[trigger] entries[i]).0@ == k;
            if i < entries.len() - 1 {
                assert(rest[i] == entries[i]);
            }
        }
    }
}

impl GroupIndex {
    #[verifier::type_invariant]
    spec fn keys_distinct(self) -> bool {
        forall|i: int, j: int|
            0 <= i < j < self.entries@.len() ==> (#[trigger] self.entries@[i]).0@ != (
            #[trigger] self.entries@[j]).0@
    }

    /// An index with no groups.
    pub fn new() -> (r: GroupIndex)
        ensures
            r@ == Map::<Seq<char>, i64>::empty(),
    {
        GroupIndex { entries: Vec::new() }
    }

    fn position(&self, key: &str) -> (x: usize)
        ensures
            x <= self.entries@.len(),
            x < self.entries@.len() ==> self.entries@[x as int].0@ == key@,
            x == self.entries@.len() ==> forall|t: int|
                0 <= t < self.entries@.len() ==> (#[trigger] self.entries@[t]).0@ != key@,
    {
        let m = self.entries.len();
        let mut x: usize = 0;
        while x < m && !crate::text::str_equal(self.entries[x].0.as_str(), key)
            invariant
                x <= m,
                m == self.entries@.len(),
                forall|t: int| 0 <= t < x ==> (#[trigger] self.entries@[t]).0@ != key@,
            decreases m - x,
        {
            x = x + 1;
        }
        x
    }

    /// Records the id of a group, replacing an earlier id for the same name.
    pub fn insert(&mut self, key: String, id: i64)
        ensures
            final(self)@ == old(self)@.insert(key@, id),
    {
        proof {
            use_type_invariant(&*self);
        }
        let x = self.position(key.as_str());
        let ghost old_entries = self.entries@;
        let mut entries: Vec<(String, i64)> = Vec::new();
        std::mem::swap(&mut entries, &mut self.entries);
        if x < entries.len() {
            entries.set(x, (key, id));
            proof {
                lemma_entries_map_replace(old_entries, x as int, entries@);
                assert forall|i: int, j: int| 0 <= i < j < entries@.len() implies (
                #[trigger] entries@[i]).0@ != (#[trigger] entries@[j]).0@ by {
                    assert(entries@[i].0@ == old_entries[i].0@);
                    assert(entries@[j].0@ == old_entries[j].0@);
                }
            }
        } else {
            entries.push((key, id));
            proof {
                assert(entries@.drop_last() =~= old_entries);
                assert forall|i: int, j: int| 0 <= i < j < entries@.len() implies (
                #[trigger] entries@[i]).0@ != (#[trigger] entries@[j]).0@ by {
                    if j < old_entries.len() {
                        assert(entries@[i] == old_entries[i]);
                        assert(entries@[j] == old_entries[j]);
                    } else {
                        assert(entries@[i] == old_entries[i]);
                    }
                }
            }
        }
        self.entries = entries;
    }

    /// The id recorded for a group name.
    pub fn get(&self, key: &str) -> (r: Option<i64>)
        ensures
            match r {
                Some(id) => self@.contains_key(key@) && self@[key@] == id,
                None => !self@.contains_key(key@),
            },
    {
        proof {
            use_type_invariant(self);
            lemma_entries_map_find(self.entries@, key@);
        }
        let x = self.position(key);
        if x < self.entries.len() {
            Some(self.entries[x].1)
        } else {
            None
        }
    }
}

proof fn lemma_entries_map_replace(old_e: Seq<(String, i64)>, x: int, new_e: Seq<(String, i64)>)
    requires
        forall|i: int, j: int|
            0 <= i < j < old_e.len() ==> (#[trigger] old_e[i]).0@ != (#[trigger] old_e[j]).0@,
        0 <= x < old_e.len(),
        new_e == old_e.update(x, new_e[x]),
        new_e[x].0@ == old_e[x].0@,
    ensures
        entries_map(new_e) == entries_map(old_e).insert(new_e[x].0@, new_e[x].1),
{
    let key = new_e[x].0@;
    assert forall|i: int, j: int| 0 <= i < j < new_e.len() implies (#[trigger] new_e[i]).0@ != (
    #[trigger] new_e[j]).0@ by {
        assert(new_e[i].0@ == old_e[i].0@);
        assert(new_e[j].0@ == old_e[j].0@);
    }
    assert forall|k: Seq<char>| #[trigger] entries_map(new_e).contains_key(k) == entries_map(
        old_e,
    ).insert(key, new_e[x].1).contains_key(k) && (entries_map(new_e).contains_key(k)
        ==> entries_map(new_e)[k] == entries_map(old_e).insert(key, new_e[x].1)[k]) by {
        lemma_entries_map_find(old_e, k);
        lemma_entries_map_find(new_e, k);
        if exists|i: int| 0 <= i < old_e.len() && (#[trigger] old_e[i]).0@ == k {
            let i = choose|i: int| 0 <= i < old_e.len() && (#[trigger] old_e[i]).0@ == k;
            assert(new_e[i].0@ == k);
        }
        if exists|i: int| 0 <= i < new_e.len() && (#[trigger] new_e[i]).0@ == k {
            let i = choose|i: int| 0 <= i < new_e.len() && (#[trigger] new_e[i]).0@ == k;
            assert(old_e[i].0@ == k);
            if i != x {
                assert(new_e[i] == old_e[i]);
            }
        }
    }
    assert(entries_map(new_e) =~= entries_map(old_e).insert(key, new_e[x].1));
}

/// A recorded id reads back, and recording one name leaves every other
/// name's id as it was.
pub proof fn lemma_index_read_after_write(
    before: GroupIndex,
    after: GroupIndex,
    key: Seq<char>,
    id: i64,
    other: Seq<char>,
)
    requires
        after@ == before@.insert(key, id),
    ensures
        after@.contains_key(key) && after@[key] == id,
        other != key ==> after@.contains_key(other) == before@.contains_key(other),
        other != key && before@.contains_key(other) ==> after@[other] == before@[other],
{
}

// ---------------------------------------------------------------------
// Sites
// ---------------------------------------------------------------------

/// A site to be stored for a group.
pub struct LocationWrite {
    pub group_id: i64,
    pub loc_type: String,
    pub slug: String,
    pub fqdn: String,
    pub title: Option<String>,
    pub available: bool,
    pub last_checked: Option<String>,
}

/// The sites that are stored: those that have both a URL and a host.
pub open spec fn stored_locations(locs: Seq<Location>) -> Seq<Location>
    decreases locs.len(),
{
    if locs.len() == 0 {
        Seq::empty()
    } else {
        stored_locations(locs.drop_last()) + if locs.last().slug.is_some()
            && locs.last().fqdn.is_some() {
            seq![locs.last()]
        } else {
            Seq::empty()
        }
    }
}

/// `w` stores the site `loc` for the group `group_id`: a site without a type
/// is a data leak site (`DLS`), one without availability is down.
pub open spec fn writes_location(w: LocationWrite, group_id: i64, loc: Location) -> bool {
    &&& w.group_id == group_id
    &&& w.loc_type@ == match loc.location_type {
        Some(t) => t@,
        None => "DLS"@,
    }
    &&& Some(w.slug@) == opt_view(loc.slug)
    &&& Some(w.fqdn@) == opt_view(loc.fqdn)
    &&& opt_view(w.title) == opt_view(loc.title)
    &&& w.available == match loc.available {
        Some(b) => b,
        None => false,
    }
    &&& opt_view(w.last_checked) == opt_view(loc.updated)
}

/// A stored site carries the group's id and the site's own fields: its type
/// (`DLS` when it has none), its URL and host, its title, whether it is up
/// (down when not told) and when it was last checked.
pub proof fn lemma_location_write_fields(w: LocationWrite, group_id: i64, loc: Location)
    requires
        writes_location(w, group_id, loc),
    ensures
        w.group_id == group_id,
        loc.location_type is Some ==> w.loc_type@ == loc.location_type.unwrap()@,
        loc.location_type is None ==> w.loc_type@ == "DLS"@,
        loc.slug is Some && w.slug@ == loc.slug.unwrap()@,
        loc.fqdn is Some && w.fqdn@ == loc.fqdn.unwrap()@,
        (w.title is Some <==> loc.title is Some) && (loc.title is Some ==> w.title.unwrap()@
            == loc.title.unwrap()@),
        w.available == (loc.available == Some(true)),
        (w.last_checked is Some <==> loc.updated is Some) && (loc.updated is Some
            ==> w.last_checked.unwrap()@ == loc.updated.unwrap()@),
{
}

fn clone_opt(o: &Option<String>) -> (r: Option<String>)
    ensures
        opt_view(r) == opt_view(*o),
{
    match o {
        Some(s) => Some(s.clone()),
        None => None,
    }
}

/// The sites of a group that are to be stored, in order.
pub fn location_writes(group_id: i64, locations: &Vec<Location>) -> (r: Vec<LocationWrite>)
    ensures
        r@.len() == stored_locations(locations@).len(),
        forall|k: int|
            0 <= k < r@.len() ==> writes_location(
                #[trigger] r@[k],
                group_id,
                stored_locations(locations@)[k],
            ),
{
    let mut out: Vec<LocationWrite> = Vec::new();
    let n = locations.len();
    let mut i: usize = 0;
    while i < n
        invariant
            i <= n,
            n == locations@.len(),
            out@.len() == stored_locations(locations@.take(i as int)).len(),
            forall|k: int|
                0 <= k < out@.len() ==> writes_location(
                    #[trigger] out@[k],
                    group_id,
                    stored_locations(locations@.take(i as int))[k],
                ),
        decreases n - i,
    {
        let ghost pre = locations@.take(i as int);
        proof {
            assert(locations@.take(i + 1).drop_last() =~= pre);
        }
        let loc = &locations[i];
        match (&loc.slug, &loc.fqdn) {
            (Some(slug), Some(fqdn)) => {
                let loc_type = match &loc.location_type {
                    Some(t) => t.clone(),
                    None => "DLS".to_owned(),
                };
                let available = match loc.available {
                    Some(b) => b,
                    None => false,
                };
                let w = LocationWrite {
                    group_id,
                    loc_type,
                    slug: slug.clone(),
                    fqdn: fqdn.clone(),
                    title: clone_opt(&loc.title),
                    available,
                    last_checked: clone_opt(&loc.updated),
                };
                let ghost before = out@;
                out.push(w);
                proof {
                    let post = stored_locations(locations@.take(i + 1));
                    assert(post == stored_locations(pre).push(locations@[i as int]));
                    assert forall|k: int| 0 <= k < out@.len() implies writes_location(
                        #[trigger] out@[k],
                        group_id,
                        post[k],
                    ) by {
                        if k < before.len() {
                            assert(out@[k] == before[k]);
                        }
                    }
                }
            },
            _ => {
                proof {
                    assert(stored_locations(locations@.take(i + 1)) =~= stored_locations(pre));
                }
            },
        }
        i = i + 1;
    }
    proof {
        assert(locations@.take(n as int) =~= locations@);
    }
    out
}

// ---------------------------------------------------------------------
// Contacts and references
// ---------------------------------------------------------------------

/// The contacts of a group to be stored; a missing one keeps the stored value.
pub struct ContactUpdate {
    pub tox: Option<String>,
    pub telegram: Option<String>,
    pub jabber: Option<String>,
    pub pgp: Option<String>,
}

/// What the second tracker's record of a group adds to it.
pub struct ContactPlan {
    /// Contacts to store, when at least one is given.
    pub contacts: Option<ContactUpdate>,
    /// A references section to append to the description, when links are given.
    pub references: Option<String>,
}

/// A contact counts only when it is given and not empty.
pub open spec fn given(o: Option<String>) -> Option<Seq<char>> {
    match o {
        Some(s) => if s@.len() > 0 {
            Some(s@)
        } else {
            None
        },
        None => None,
    }
}

/// `p` is what the record `rl` adds: contacts when at least one is given (each
/// empty one left out), and the references section of its links when it has some.
pub open spec fn plans_contacts(p: ContactPlan, rl: RansomlookGroup) -> bool {
    let any = given(rl.tox).is_some() || given(rl.telegram).is_some() || given(rl.jabber).is_some()
        || given(rl.pgp).is_some();
    &&& (p.contacts.is_some() <==> any)
    &&& match p.contacts {
        Some(c) => opt_view(c.tox) == given(rl.tox) && opt_view(c.telegram) == given(rl.telegram)
            && opt_view(c.jabber) == given(rl.jabber) && opt_view(c.pgp) == given(rl.pgp),
        None => true,
    }
    &&& match rl.profile {
        Some(links) => if links@.len() > 0 {
            opt_view(p.references) == Some(references_text(views(links@)))
        } else {
            p.references.is_none()
        },
        None => p.references.is_none(),
    }
}

fn given_copy(o: &Option<String>) -> (r: Option<String>)
    ensures
        opt_view(r) == given(*o),
{
    match o {
        Some(s) => {
            if s.as_str().is_empty() {
                None
            } else {
                Some(s.clone())
            }
        },
        None => None,
    }
}

/// What the second tracker's record of a group adds to it.
pub fn contact_plan(rl: &RansomlookGroup) -> (r: ContactPlan)
    ensures
        plans_contacts(r, *rl),
{
    let tox = given_copy(&rl.tox);
    let telegram = given_copy(&rl.telegram);
    let jabber = given_copy(&rl.jabber);
    let pgp = given_copy(&rl.pgp);
    let contacts = if tox.is_some() || telegram.is_some() || jabber.is_some() || pgp.is_some() {
        Some(ContactUpdate { tox, telegram, jabber, pgp })
    } else {
        None
    };
    let references = match &rl.profile {
        Some(links) => {
            if links.len() > 0 {
                Some(crate::db::references_section(links.as_slice()))
            } else {
                None
            }
        },
        None => None,
    };
    ContactPlan { contacts, references }
}

/// The contacts taken from the second tracker's record: there are some
/// exactly when the record gives one that is not empty, and each contact of
/// the update is the record's contact of the same name when that is given and
/// not empty, and absent otherwise.
pub proof fn lemma_contact_plan_fields(p: ContactPlan, rl: RansomlookGroup)
    requires
        plans_contacts(p, rl),
    ensures
        p.contacts is Some <==> (rl.tox is Some && rl.tox.unwrap()@.len() > 0) || (rl.telegram is Some && rl.telegram.unwrap()@.len() > 0) || (rl.jabber is Some && rl.jabber.unwrap()@.len() > 0) || (rl.pgp is Some && rl.pgp.unwrap()@.len() > 0),
        p.contacts matches Some(c) ==> (c.tox is Some <==> (rl.tox is Some && rl.tox.unwrap()@.len() > 0)) && (c.tox is Some ==> c.tox.unwrap()@ == rl.tox.unwrap()@),
        p.contacts matches Some(c) ==> (c.telegram is Some <==> (rl.telegram is Some && rl.telegram.unwrap()@.len() > 0)) && (c.telegram is Some ==> c.telegram.unwrap()@ == rl.telegram.unwrap()@),
        p.contacts matches Some(c) ==> (c.jabber is Some <==> (rl.jabber is Some && rl.jabber.unwrap()@.len() > 0)) && (c.jabber is Some ==> c.jabber.unwrap()@ == rl.jabber.unwrap()@),
        p.contacts matches Some(c) ==> (c.pgp is Some <==> (rl.pgp is Some && rl.pgp.unwrap()@.len() > 0)) && (c.pgp is Some ==> c.pgp.unwrap()@ == rl.pgp.unwrap()@),
{
}

// ---------------------------------------------------------------------
// The state of a run
// ---------------------------------------------------------------------

/// What a run has learnt so far: the id of every group stored, by lower-case
/// name, and what it has stored.
pub struct SyncState {
    groups: GroupIndex,
    stats: SyncStats,
}

/// The text of an optional string slice, by its view.
pub open spec fn opt_str_view(o: Option<&str>) -> Option<Seq<char>> {
    match o {
        Some(s) => Some(s@),
        None => None,
    }
}

/// `d` holds the fields of the victim `v`.
pub open spec fn victim_data_of(d: VictimData, v: Victim) -> bool {
    &&& opt_str_view(d.name) == opt_view(v.name)
    &&& opt_str_view(d.country) == opt_view(v.country)
    &&& opt_str_view(d.activity) == opt_view(v.activity)
    &&& opt_str_view(d.description) == opt_view(v.description)
    &&& opt_str_view(d.post_url) == opt_view(v.post_url)
    &&& opt_str_view(d.website) == opt_view(v.website)
    &&& opt_str_view(d.screenshot) == opt_view(v.screenshot)
    &&& opt_str_view(d.data_size) == opt_view(v.data_size)
    &&& opt_str_view(d.ransom) == opt_view(v.ransom)
    &&& opt_str_view(d.discovered) == opt_view(v.discovered)
    &&& opt_str_view(d.published) == opt_view(v.published)
}

/// The name a victim record gives its group (empty when it gives none).
pub open spec fn victim_group(v: Victim) -> Seq<char> {
    match v.group_name {
        Some(g) => g@,
        None => Seq::empty(),
    }
}

/// Whether a victim record names the victim.
pub open spec fn victim_named(v: Victim) -> bool {
    match v.name {
        Some(n) => n@.len() > 0,
        None => false,
    }
}

fn as_opt_str<'a>(o: &'a Option<String>) -> (r: Option<&'a str>)
    ensures
        opt_str_view(r) == opt_view(*o),
{
    match o {
        Some(s) => Some(s.as_str()),
        None => None,
    }
}

/// The data written for a victim carries each field of the tracker's record
/// in the column of the same name: name, country, activity, description, post
/// URL, website, screenshot, data size, ransom, discovery and publication dates.
pub proof fn lemma_victim_data_fields(d: VictimData, v: Victim)
    requires
        victim_data_of(d, v),
    ensures
        (d.name is Some <==> v.name is Some) && (v.name is Some ==> d.name.unwrap()@ == v.name.unwrap()@),
        (d.country is Some <==> v.country is Some) && (v.country is Some ==> d.country.unwrap()@ == v.country.unwrap()@),
        (d.activity is Some <==> v.activity is Some) && (v.activity is Some ==> d.activity.unwrap()@ == v.activity.unwrap()@),
        (d.description is Some <==> v.description is Some) && (v.description is Some ==> d.description.unwrap()@ == v.description.unwrap()@),
        (d.post_url is Some <==> v.post_url is Some) && (v.post_url is Some ==> d.post_url.unwrap()@ == v.post_url.unwrap()@),
        (d.website is Some <==> v.website is Some) && (v.website is Some ==> d.website.unwrap()@ == v.website.unwrap()@),
        (d.screenshot is Some <==> v.screenshot is Some) && (v.screenshot is Some ==> d.screenshot.unwrap()@ == v.screenshot.unwrap()@),
        (d.data_size is Some <==> v.data_size is Some) && (v.data_size is Some ==> d.data_size.unwrap()@ == v.data_size.unwrap()@),
        (d.ransom is Some <==> v.ransom is Some) && (v.ransom is Some ==> d.ransom.unwrap()@ == v.ransom.unwrap()@),
        (d.discovered is Some <==> v.discovered is Some) && (v.discovered is Some ==> d.discovered.unwrap()@ == v.discovered.unwrap()@),
        (d.published is Some <==> v.published is Some) && (v.published is Some ==> d.published.unwrap()@ == v.published.unwrap()@),
{
}

impl SyncState {
    /// The ids of the groups stored so far, by lower-case name.
    pub closed spec fn group_ids(&self) -> Map<Seq<char>, i64> {
        self.groups@
    }

    /// What the run has stored so far.
    pub closed spec fn counts(&self) -> SyncStats {
        self.stats
    }

    /// Records how many groups the run stored.
    pub fn set_group_count(&mut self, n: usize)
        ensures
            final(self).group_ids() == old(self).group_ids(),
            final(self).counts().groups == n,
            final(self).counts().urls == old(self).counts().urls,
            final(self).counts().victims == old(self).counts().victims,
            final(self).counts().notes == old(self).counts().notes,
    {
        self.stats.groups = n;
    }

    /// Ends the run, handing back what it stored.
    pub fn finish(self) -> (r: SyncStats)
        ensures
            r == self.counts(),
    {
        self.stats
    }

    /// The state at the start of a run.
    pub fn new() -> (r: SyncState)
        ensures
            r.group_ids() == Map::<Seq<char>, i64>::empty(),
            r.counts().groups == 0 && r.counts().urls == 0 && r.counts().victims == 0 && r.counts().notes == 0,
    {
        SyncState { groups: GroupIndex::new(), stats: SyncStats::default() }
    }

    /// A group was stored under `group_id`: remembers it by lower-case name and
    /// tells which of its sites to store, counting them.
    pub fn store_group(&mut self, name: &str, group_id: i64, locations: &Vec<Location>) -> (r: Vec<
        LocationWrite,
    >)
        requires
            old(self).counts().urls + stored_locations(locations@).len() <= usize::MAX,
        ensures
            final(self).group_ids() == old(self).group_ids().insert(lowercase(name@), group_id),
            final(self).counts().urls == old(self).counts().urls + r@.len(),
            final(self).counts().groups == old(self).counts().groups,
            final(self).counts().victims == old(self).counts().victims,
            final(self).counts().notes == old(self).counts().notes,
            r@.len() == stored_locations(locations@).len(),
            forall|k: int|
                0 <= k < r@.len() ==> writes_location(
                    #[trigger] r@[k],
                    group_id,
                    stored_locations(locations@)[k],
                ),
    {
        let key = to_lowercase(name);
        self.groups.insert(key, group_id);
        let writes = location_writes(group_id, locations);
        self.stats.urls = self.stats.urls + writes.len();
        writes
    }

    /// A victim of the recent-victims list: it is stored, and counted, when
    /// it names itself and its group is known; the victim's fields go to the
    /// group's id.
    pub fn victim_write<'a>(&mut self, v: &'a Victim) -> (r: Option<(i64, VictimData<'a>)>)
        requires
            old(self).counts().victims < usize::MAX,
        ensures
            final(self).group_ids() == old(self).group_ids(),
            r.is_some() <==> (old(self).group_ids().contains_key(lowercase(victim_group(*v)))
                && victim_named(*v)),
            match r {
                Some((id, data)) => id == old(self).group_ids()[lowercase(victim_group(*v))]
                    && victim_data_of(data, *v),
                None => true,
            },
            final(self).counts().victims == old(self).counts().victims + if r.is_some() {
                1int
            } else {
                0int
            },
            final(self).counts().groups == old(self).counts().groups,
            final(self).counts().urls == old(self).counts().urls,
            final(self).counts().notes == old(self).counts().notes,
    {
        let group = match &v.group_name {
            Some(g) => g.as_str(),
            None => "",
        };
        proof {
            if v.group_name.is_none() {
                reveal_strlit("");
                assert(group@ =~= victim_group(*v));
            }
        }
        let key = to_lowercase(group);
        match self.groups.get(key.as_str()) {
            Some(id) => {
                let named = match &v.name {
                    Some(n) => !n.as_str().is_empty(),
                    None => false,
                };
                if named {
                    let data = VictimData {
                        name: as_opt_str(&v.name),
                        country: as_opt_str(&v.country),
                        activity: as_opt_str(&v.activity),
                        description: as_opt_str(&v.description),
                        post_url: as_opt_str(&v.post_url),
                        website: as_opt_str(&v.website),
                        screenshot: as_opt_str(&v.screenshot),
                        data_size: as_opt_str(&v.data_size),
                        ransom: as_opt_str(&v.ransom),
                        discovered: as_opt_str(&v.discovered),
                        published: as_opt_str(&v.published),
                    };
                    self.stats.victims = self.stats.victims + 1;
                    Some((id, data))
                } else {
                    None
                }
            },
            None => None,
        }
    }

    /// A ransom note from the notes page: it is stored, and counted, under
    /// the id of its group when the group is known.
    pub fn note_group(&mut self, note: &RansomNote) -> (r: Option<i64>)
        requires
            old(self).counts().notes < usize::MAX,
        ensures
            final(self).group_ids() == old(self).group_ids(),
            match r {
                Some(id) => old(self).group_ids().contains_key(lowercase(note.group_name@))
                    && id == old(self).group_ids()[lowercase(note.group_name@)],
                None => !old(self).group_ids().contains_key(lowercase(note.group_name@)),
            },
            final(self).counts().notes == old(self).counts().notes + if r.is_some() {
                1int
            } else {
                0int
            },
            final(self).counts().groups == old(self).counts().groups,
            final(self).counts().urls == old(self).counts().urls,
            final(self).counts().victims == old(self).counts().victims,
    {
        let key = to_lowercase(note.group_name.as_str());
        let r = self.groups.get(key.as_str());
        if r.is_some() {
            self.stats.notes = self.stats.notes + 1;
        }
        r
    }
}

// ---------------------------------------------------------------------
// The order of a run's requests
// ---------------------------------------------------------------------

/// The pause after each request to the second tracker, in milliseconds.
pub const REQUEST_GAP_MS: u64 = 100;

/// The wait between the first tracker's group list and its victim list, in
/// milliseconds, against its rate limit.
pub const RATE_LIMIT_WAIT_MS: u64 = 60000;

/// The request a run makes next.
#[derive(PartialEq, Eq, Structural, Clone, Copy, Debug)]
pub enum SyncStage {
    /// The group list of the first tracker.
    Groups,
    /// The second tracker's record of the group at `index` of the `total` groups.
    Contacts { index: usize, total: usize },
    /// The recent victims.
    Victims,
    /// The ransom-note index page.
    Notes,
    /// The run is complete.
    Done,
    /// A request the run cannot go on without failed: the run ends with its error.
    Failed,
}

/// What a run does once a request has been answered: how long it pauses, and
/// which request it makes next.
#[derive(PartialEq, Eq, Structural, Clone, Copy, Debug)]
pub struct SyncStep {
    pub next: SyncStage,
    pub pause_ms: u64,
}

/// The stage after the second tracker's record of the group at `index`.
pub open spec fn after_contacts(index: usize, total: usize) -> SyncStage {
    if index + 1 < total {
        SyncStage::Contacts { index: (index + 1) as usize, total }
    } else {
        SyncStage::Victims
    }
}

/// What a run does after the request of `stage` succeeded (`ok`) or failed,
/// `group_count` being the number of groups the group list gave. A failed group
/// list, victim list or note page ends the run; a failed record of the second
/// tracker is skipped. Every request to the second tracker is followed by a
/// pause of `REQUEST_GAP_MS`, and the victim list is asked for
/// `RATE_LIMIT_WAIT_MS` after the last of them (after the group list when there
/// are no groups). A run that is over stays where it is.
pub open spec fn next_step(stage: SyncStage, ok: bool, group_count: usize) -> SyncStep {
    match stage {
        SyncStage::Groups => if !ok {
            SyncStep { next: SyncStage::Failed, pause_ms: 0 }
        } else if group_count == 0 {
            SyncStep { next: SyncStage::Victims, pause_ms: RATE_LIMIT_WAIT_MS }
        } else {
            SyncStep { next: SyncStage::Contacts { index: 0, total: group_count }, pause_ms: 0 }
        },
        SyncStage::Contacts { index, total } => SyncStep {
            next: after_contacts(index, total),
            pause_ms: if index + 1 < total {
                REQUEST_GAP_MS
            } else {
                (REQUEST_GAP_MS + RATE_LIMIT_WAIT_MS) as u64
            },
        },
        SyncStage::Victims => if ok {
            SyncStep { next: SyncStage::Notes, pause_ms: 0 }
        } else {
            SyncStep { next: SyncStage::Failed, pause_ms: 0 }
        },
        SyncStage::Notes => if ok {
            SyncStep { next: SyncStage::Done, pause_ms: 0 }
        } else {
            SyncStep { next: SyncStage::Failed, pause_ms: 0 }
        },
        SyncStage::Done => SyncStep { next: SyncStage::Done, pause_ms: 0 },
        SyncStage::Failed => SyncStep { next: SyncStage::Failed, pause_ms: 0 },
    }
}

/// What a run does after the request of `stage` was answered.
pub fn sync_step(stage: &SyncStage, ok: bool, group_count: usize) -> (r: SyncStep)
    ensures
        r == next_step(*stage, ok, group_count),
{
    match stage {
        SyncStage::Groups => if !ok {
            SyncStep { next: SyncStage::Failed, pause_ms: 0 }
        } else if group_count == 0 {
            SyncStep { next: SyncStage::Victims, pause_ms: RATE_LIMIT_WAIT_MS }
        } else {
            SyncStep { next: SyncStage::Contacts { index: 0, total: group_count }, pause_ms: 0 }
        },
        SyncStage::Contacts { index, total } => {
            if *total > 0 && *index < *total - 1 {
                SyncStep {
                    next: SyncStage::Contacts { index: *index + 1, total: *total },
                    pause_ms: REQUEST_GAP_MS,
                }
            } else {
                SyncStep { next: SyncStage::Victims, pause_ms: REQUEST_GAP_MS + RATE_LIMIT_WAIT_MS }
            }
        },
        SyncStage::Victims => if ok {
            SyncStep { next: SyncStage::Notes, pause_ms: 0 }
        } else {
            SyncStep { next: SyncStage::Failed, pause_ms: 0 }
        },
        SyncStage::Notes => if ok {
            SyncStep { next: SyncStage::Done, pause_ms: 0 }
        } else {
            SyncStep { next: SyncStage::Failed, pause_ms: 0 }
        },
        SyncStage::Done => SyncStep { next: SyncStage::Done, pause_ms: 0 },
        SyncStage::Failed => SyncStep { next: SyncStage::Failed, pause_ms: 0 },
    }
}

/// After any answer: a failed group list, victim list or note page ends the
/// run, and a failed record of the second tracker does not; a successful victim
/// list leads to the note page and a successful note page ends the run; every
/// request to the second tracker is followed by a pause of at least 100 ms; the
/// victim list is asked for only after a wait of at least 60 s since the
/// previous request.
pub proof fn lemma_step_policy(stage: SyncStage, ok: bool, group_count: usize)
    ensures
        ({
            let r = next_step(stage, ok, group_count);
            &&& !ok && (stage == SyncStage::Groups || stage == SyncStage::Victims || stage
                == SyncStage::Notes) ==> r.next == SyncStage::Failed
            &&& stage is Contacts ==> r.next != SyncStage::Failed && r.pause_ms >= 100
            &&& ok && stage == SyncStage::Groups ==> r.next != SyncStage::Failed
            &&& ok && stage == SyncStage::Victims ==> r.next == SyncStage::Notes
            &&& ok && stage == SyncStage::Notes ==> r.next == SyncStage::Done
            &&& r.next == SyncStage::Victims && stage != SyncStage::Victims ==> r.pause_ms >= 60000
            &&& r.next is Contacts ==> r.next->index < r.next->total
        }),
{
}

/// The stage a run reaches from `stage` through the answers `oks`, one per
/// request, in order.
pub open spec fn stage_after(stage: SyncStage, oks: Seq<bool>, group_count: usize) -> SyncStage
    decreases oks.len(),
{
    if oks.len() == 0 {
        stage
    } else {
        next_step(stage_after(stage, oks.drop_last(), group_count), oks.last(), group_count).next
    }
}

/// Once the group list has given `n` groups, the run asks the second tracker
/// for each group's record once, in order, whatever it answers, and then asks
/// for the victims.
pub proof fn lemma_each_group_asked_once(oks: Seq<bool>, n: usize)
    requires
        1 <= oks.len() <= n + 1,
        oks[0],
    ensures
        stage_after(SyncStage::Groups, oks, n) == if n == 0 {
            SyncStage::Victims
        } else if oks.len() - 1 < n {
            SyncStage::Contacts { index: (oks.len() - 1) as usize, total: n }
        } else {
            SyncStage::Victims
        },
    decreases oks.len(),
{
    let pre = oks.drop_last();
    if oks.len() == 1 {
        assert(pre.len() == 0);
    } else {
        assert(pre[0] == oks[0]);
        lemma_each_group_asked_once(pre, n);
    }
}

// ---------------------------------------------------------------------
// Requests and answers
// ---------------------------------------------------------------------

/// The group list of the first tracker.
pub open spec fn groups_url_text() -> Seq<char> {
    "https://api.ransomware.live/v2/groups"@
}

/// The recent-victims list of the first tracker.
pub open spec fn recent_victims_url_text() -> Seq<char> {
    "https://api.ransomware.live/v2/recentvictims"@
}

/// The ransom-note index page of the first tracker.
pub open spec fn ransom_notes_url_text() -> Seq<char> {
    "https://www.ransomware.live/ransomnotes"@
}

/// A group's record on the second tracker.
pub open spec fn ransomlook_group_url_text(name: Seq<char>) -> Seq<char> {
    "https://www.ransomlook.io/api/group/"@ + name
}

/// The address of the first tracker's group list.
pub fn groups_url() -> (r: String)
    ensures
        r@ == groups_url_text(),
{
    "https://api.ransomware.live/v2/groups".to_owned()
}

/// The address of the first tracker's recent-victims list.
pub fn recent_victims_url() -> (r: String)
    ensures
        r@ == recent_victims_url_text(),
{
    "https://api.ransomware.live/v2/recentvictims".to_owned()
}

/// The address of the first tracker's ransom-note index page.
pub fn ransom_notes_url() -> (r: String)
    ensures
        r@ == ransom_notes_url_text(),
{
    "https://www.ransomware.live/ransomnotes".to_owned()
}

/// The address of a group's record on the second tracker.
pub fn ransomlook_group_url(name: &str) -> (r: String)
    ensures
        r@ == ransomlook_group_url_text(name@),
{
    let mut r = "https://www.ransomlook.io/api/group/".to_owned();
    r.append(name);
    r
}

/// Whether a tracker's answer is its rate-limit notice rather than data: it
/// mentions both `per` and `minute`.
pub open spec fn rate_limited(text: Seq<char>) -> bool {
    contains_text(text, "per"@) && contains_text(text, "minute"@)
}

/// Tells a rate-limit notice from data.
pub fn looks_rate_limited(text: &str) -> (r: bool)
    ensures
        r == rate_limited(text@),
{
    contains_str(text, "per") && contains_str(text, "minute")
}

} // verus!

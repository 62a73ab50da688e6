use torsearch::sync::{
    contact_plan, location_writes, looks_rate_limited, ransomlook_group_url, sync_step, GroupIndex,
    Location, RansomNote, RansomlookGroup, SyncStage, SyncState, SyncStep, Victim,
    RATE_LIMIT_WAIT_MS, REQUEST_GAP_MS,
};

fn loc(slug: Option<&str>, fqdn: Option<&str>, ty: Option<&str>, available: Option<bool>) -> Location {
    Location {
        slug: slug.map(|s| s.to_string()),
        fqdn: fqdn.map(|s| s.to_string()),
        title: None,
        available,
        updated: Some("2026-06-27".to_string()),
        location_type: ty.map(|s| s.to_string()),
    }
}

fn victim(name: Option<&str>, group: Option<&str>) -> Victim {
    Victim {
        name: name.map(|s| s.to_string()),
        group_name: group.map(|s| s.to_string()),
        country: Some("US".to_string()),
        activity: None,
        description: None,
        post_url: Some("http://x.onion/post".to_string()),
        website: None,
        screenshot: None,
        data_size: None,
        ransom: None,
        discovered: Some("2026-06-27".to_string()),
        published: None,
    }
}

#[test]
fn sites_without_url_or_host_are_skipped() {
    let locs = vec![
        loc(Some("http://a.onion/"), Some("a.onion"), None, None),
        loc(None, Some("b.onion"), Some("Chat"), Some(true)),
        loc(Some("http://c.onion/"), None, Some("Chat"), Some(true)),
        loc(Some("http://d.onion/chat"), Some("d.onion"), Some("Chat"), Some(true)),
    ];
    let w = location_writes(9, &locs);
    assert_eq!(w.len(), 2);
    assert_eq!(w[0].loc_type, "DLS");
    assert!(!w[0].available);
    assert_eq!(w[0].slug, "http://a.onion/");
    assert_eq!(w[1].loc_type, "Chat");
    assert!(w[1].available);
    assert_eq!(w[1].group_id, 9);
    assert_eq!(w[1].last_checked.as_deref(), Some("2026-06-27"));
}

#[test]
fn group_index_read_after_write() {
    let mut idx = GroupIndex::new();
    assert_eq!(idx.get("lockbit"), None);
    idx.insert("lockbit".to_string(), 1);
    idx.insert("akira".to_string(), 2);
    assert_eq!(idx.get("lockbit"), Some(1));
    idx.insert("lockbit".to_string(), 3);
    assert_eq!(idx.get("lockbit"), Some(3));
    assert_eq!(idx.get("akira"), Some(2));
    assert_eq!(idx.get("Akira"), None);
}

#[test]
fn run_matches_groups_without_case() {
    let mut st = SyncState::new();
    let w = st.store_group("LockBit3", 7, &vec![loc(Some("s"), Some("f"), None, None)]);
    assert_eq!(w.len(), 1);
    st.store_group("Akira", 8, &Vec::new());
    st.set_group_count(2);

    let v1 = victim(Some("Aptora"), Some("lockbit3"));
    let (id, data) = st.victim_write(&v1).unwrap();
    assert_eq!(id, 7);
    assert_eq!(data.name, Some("Aptora"));
    assert_eq!(data.country, Some("US"));
    assert_eq!(data.post_url, Some("http://x.onion/post"));
    assert!(st.victim_write(&victim(Some(""), Some("akira"))).is_none());
    assert!(st.victim_write(&victim(None, Some("akira"))).is_none());
    assert!(st.victim_write(&victim(Some("X"), Some("unknown"))).is_none());
    assert!(st.victim_write(&victim(Some("X"), None)).is_none());
    assert_eq!(st.victim_write(&victim(Some("Y"), Some("AKIRA"))).map(|(i, _)| i), Some(8));

    let note = RansomNote {
        group_name: "lockbit3".to_string(),
        filename: "a.txt".to_string(),
        file_type: "txt".to_string(),
        url: "u".to_string(),
    };
    assert_eq!(st.note_group(&note), Some(7));
    let stray = RansomNote { group_name: "nobody".to_string(), ..note };
    assert_eq!(st.note_group(&stray), None);

    let stats = st.finish();
    assert_eq!((stats.groups, stats.urls, stats.victims, stats.notes), (2, 1, 2, 1));
}

#[test]
fn contacts_and_references() {
    let rl = RansomlookGroup {
        profile: Some(vec!["https://a.example/1".to_string(), "https://b.example/2".to_string()]),
        tox: Some("".to_string()),
        telegram: Some("@grp".to_string()),
        jabber: None,
        pgp: None,
    };
    let plan = contact_plan(&rl);
    let c = plan.contacts.unwrap();
    assert_eq!(c.tox, None);
    assert_eq!(c.telegram.as_deref(), Some("@grp"));
    assert_eq!(
        plan.references.as_deref(),
        Some("\n\n## References\n- https://a.example/1\n- https://b.example/2")
    );
    let empty = RansomlookGroup { profile: Some(Vec::new()), tox: Some("".to_string()), telegram: None, jabber: None, pgp: None };
    let plan = contact_plan(&empty);
    assert!(plan.contacts.is_none());
    assert!(plan.references.is_none());
}

#[test]
fn rate_limit_notice_and_addresses() {
    assert!(looks_rate_limited("{\"error\": \"1 per 1 minute\"}"));
    assert!(!looks_rate_limited("[{\"name\": \"lockbit\"}]"));
    assert!(!looks_rate_limited("per hour"));
    assert_eq!(ransomlook_group_url("akira"), "https://www.ransomlook.io/api/group/akira");
}

#[test]
fn sync_steps_in_order() {
    let s = sync_step(&SyncStage::Groups, true, 2);
    assert_eq!(s, SyncStep { next: SyncStage::Contacts { index: 0, total: 2 }, pause_ms: 0 });
    let s = sync_step(&s.next, false, 2);
    assert_eq!(s, SyncStep { next: SyncStage::Contacts { index: 1, total: 2 }, pause_ms: 100 });
    let s = sync_step(&s.next, true, 2);
    assert_eq!(s, SyncStep { next: SyncStage::Victims, pause_ms: 60100 });
    let s = sync_step(&s.next, true, 2);
    assert_eq!(s, SyncStep { next: SyncStage::Notes, pause_ms: 0 });
    let s = sync_step(&s.next, true, 2);
    assert_eq!(s, SyncStep { next: SyncStage::Done, pause_ms: 0 });
    assert_eq!(REQUEST_GAP_MS, 100);
    assert_eq!(RATE_LIMIT_WAIT_MS, 60000);
}

#[test]
fn sync_failures_end_the_run() {
    assert_eq!(sync_step(&SyncStage::Groups, false, 0).next, SyncStage::Failed);
    assert_eq!(sync_step(&SyncStage::Victims, false, 3).next, SyncStage::Failed);
    assert_eq!(sync_step(&SyncStage::Notes, false, 3).next, SyncStage::Failed);
    assert_eq!(sync_step(&SyncStage::Failed, true, 3), SyncStep { next: SyncStage::Failed, pause_ms: 0 });
    assert_eq!(sync_step(&SyncStage::Done, false, 3), SyncStep { next: SyncStage::Done, pause_ms: 0 });
    let last = sync_step(&SyncStage::Contacts { index: 0, total: 1 }, false, 1);
    assert_eq!(last, SyncStep { next: SyncStage::Victims, pause_ms: 60100 });
}

#[test]
fn sync_without_groups_waits_for_victims() {
    let s = sync_step(&SyncStage::Groups, true, 0);
    assert_eq!(s, SyncStep { next: SyncStage::Victims, pause_ms: 60000 });
}

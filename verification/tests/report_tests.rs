use torsearch::db::{
    CountryCount, GroupDetail, GroupRow, LocationRow, NoteWithGroup, RansomNoteRow, VictimDetail,
    VictimRow, VictimSummary,
};
use torsearch::report::{
    count_table, country_table, fill_template, group_table, note_table, render_group_detail,
    render_victim_detail, victim_table,
};
use torsearch::table::format_table;

fn lines(v: &[&str]) -> Vec<String> {
    v.iter().map(|s| s.to_string()).collect()
}

#[test]
fn table_layout() {
    let cols = vec![("ID".to_string(), 3), ("Group".to_string(), 8)];
    let rows = vec![
        vec!["42".to_string(), "lockbit".to_string()],
        vec!["15".to_string(), "blackcat-alphv".to_string()],
        vec!["7".to_string()],
    ];
    assert_eq!(
        format_table(&cols, &rows),
        lines(&[
            "------------------",
            " ID  | Group    |",
            "------------------",
            " 42  | lockbit  |",
            " 15  | black... |",
            " 7   |",
            "------------------",
        ])
    );
}

#[test]
fn heading_wider_than_column_is_kept() {
    let cols = vec![("Country".to_string(), 3)];
    let out = format_table(&cols, &Vec::new());
    assert_eq!(out[1], " Country |");
    assert_eq!(out[0], "-------");
}

#[test]
fn rows_line_up_with_rule() {
    let groups = vec![GroupRow {
        id: 42,
        name: "lockbit".to_string(),
        victim_count: 1234,
        last_activity: "2026-06-27".to_string(),
        dls_count: 4,
        note_count: 2,
        has_tox: false,
        has_telegram: false,
        has_jabber: false,
        has_pgp: true,
    }];
    let out = group_table(&groups);
    assert_eq!(out.len(), 5);
    assert_eq!(out[3], " 42  | lockbit            | 1234    | 2026-06-27    | 4   | 2     | -   | -  | -   | Y   |");
    assert_eq!(out[3].chars().count() + 1, out[0].chars().count());
    assert_eq!(out[1], " ID  | Group              | Victims | Last Activity | DLS | Notes | TOX | TG | JBR | PGP |");
}

#[test]
fn other_tables() {
    let v = victim_table(&vec![VictimRow {
        id: 101,
        name: "Aptora".to_string(),
        group_name: "dragonforce".to_string(),
        country: "US".to_string(),
        discovered_at: "2026-06-27".to_string(),
    }]);
    assert_eq!(v[3], " 101  | Aptora                    | dragonforce    | US      | 2026-06-27 |");
    let c = country_table(&vec![CountryCount { country: "US".to_string(), count: 1234, last_discovered: "2026-06-29".to_string() }]);
    assert_eq!(c[3], " US         | 1234  | 2026-06-29 |");
    let n = note_table(&vec![NoteWithGroup { group_id: -1, group_name: "akira".to_string(), url: "u".to_string() }]);
    assert_eq!(n[3].starts_with(" -1  | akira "), true);
    let t = count_table("Tool", &vec![("Exfiltration: RClone".to_string(), 45)]);
    assert_eq!(t[1], " Tool                                               | Groups |");
    assert_eq!(t[3], " Exfiltration: RClone                               | 45     |");
}

#[test]
fn template_substitutions_in_order() {
    let subs = vec![
        ("{{a}}".to_string(), "{{b}}".to_string()),
        ("{{b}}".to_string(), "x".to_string()),
    ];
    assert_eq!(fill_template("{{a}} {{b}} {{c}}", &subs), "x x {{c}}");
}

fn group() -> GroupDetail {
    GroupDetail {
        name: "akira".to_string(),
        tox: None,
        telegram: Some("@akira".to_string()),
        jabber: None,
        pgp: Some("P".repeat(60)),
        description: Some("Akira is a ransomware group.".to_string()),
        tools: Some(r#"[{"Exfiltration":["RClone"]}]"#.to_string()),
        ttps: None,
    }
}

#[test]
fn group_profile() {
    let template = "# {{name}}\n> ID: {{id}}\nTOX {{tox}} TG {{telegram}} PGP {{pgp}}\n{{description}}\n{{tools}}\n{{ttps}}\n{{sites}}\n{{ransom_notes}}\n{{victims}}\n";
    let sites = vec![
        LocationRow { loc_type: "DLS".to_string(), slug: "http://x.onion".to_string(), title: None, available: true, last_checked_at: Some("2026-06-27 10:00:00".to_string()) },
        LocationRow { loc_type: "Chat".to_string(), slug: "http://y.onion".to_string(), title: Some("chat".to_string()), available: false, last_checked_at: None },
    ];
    let notes = vec![RansomNoteRow { filename: "readme.txt".to_string(), file_type: "txt".to_string(), url: "https://n".to_string() }];
    let out = render_group_detail(template, 38, &group(), &sites, &notes, &Vec::new());
    let expected = format!(
        "# akira\n> ID: 38\nTOX - TG @akira PGP {}...\nAkira is a ransomware group.\n- **Exfiltration**: RClone\n-\n| DLS | UP | - | `http://x.onion` | 2026-06-27 |\n| Chat | DOWN | chat | `http://y.onion` | - |\n| readme.txt | txt | https://n |\n| - | - | - |\n",
        "P".repeat(50)
    );
    assert_eq!(out, expected);
}

#[test]
fn group_profile_empty_sections() {
    let out = render_group_detail("{{sites}}|{{ransom_notes}}|{{victims}}", 1, &group(), &Vec::new(), &Vec::new(), &vec![VictimSummary { name: "Aptora".to_string(), country: None, discovered_at: Some("2026-06-27".to_string()) }]);
    assert_eq!(out, "| - | - | - | - | - ||| - | - | - ||| 2026-06-27 | - | Aptora |");
}

#[test]
fn victim_profile() {
    let v = VictimDetail {
        name: "Aptora".to_string(),
        group_name: "dragonforce".to_string(),
        country: Some("US".to_string()),
        activity: None,
        description: Some("a company".to_string()),
        post_url: None,
        website: Some("https://aptora.com".to_string()),
        discovered_at: Some("2026-06-27".to_string()),
    };
    let out = render_victim_detail("# {{name}} ({{id}}) {{group}} {{country}} {{activity}} {{discovered}} {{description}} {{post_url}} {{website}}", 101, &v);
    assert_eq!(out, "# Aptora (101) dragonforce US - 2026-06-27 a company - https://aptora.com");
}

#[test]
fn template_without_placeholders_unchanged() {
    let subs = vec![("{{name}}".to_string(), "x".to_string()), ("{{id}}".to_string(), "{{name}}".to_string())];
    assert_eq!(fill_template("# profile\n> nothing to fill {{ name }}", &subs), "# profile\n> nothing to fill {{ name }}");
}

#[test]
fn heading_as_wide_as_rows() {
    let out = victim_table(&vec![VictimRow {
        id: 1,
        name: "A very long victim name that does not fit".to_string(),
        group_name: "g".to_string(),
        country: "DE".to_string(),
        discovered_at: "-".to_string(),
    }]);
    assert_eq!(out[1].chars().count(), out[3].chars().count());
    assert_eq!(out[3].chars().count() + 1, out[0].chars().count());
}

#[test]
fn notes_table_cuts_long_urls() {
    let n = note_table(&vec![
        NoteWithGroup {
            group_id: 42,
            group_name: "lockbit3".to_string(),
            url: "https://www.ransomlook.io/notes/lockbit3/README.txt".to_string(),
        },
        NoteWithGroup { group_id: 15, group_name: "akira".to_string(), url: "short".to_string() },
    ]);
    assert_eq!(n.len(), 6);
    assert_eq!(n[0], "-".repeat(51));
    assert_eq!(n[1], " ID  | Group              | URL                  |");
    assert_eq!(n[3], " 42  | lockbit3           | https://www.ranso... |");
    assert_eq!(n[4], " 15  | akira              | short                |");
    assert_eq!(n[5], n[0]);
}

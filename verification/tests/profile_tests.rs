use torsearch::json::JsonValue;
use torsearch::profile::{
    tactic_lines_of_array, technique_counts, technique_keys, technique_keys_of_array, tool_counts,
    tool_keys, tool_keys_of_array, tool_lines_of_array, tools_text_of, ttps_text_of,
};

const TOOLS_A: &str = r#"[{"Exfiltration":["RClone","WinSCP"]},{"CredentialTheft":["Mimikatz"],"LOLBAS":["PsExec",3]}]"#;
const TOOLS_B: &str = r#"[{"Exfiltration":["RClone"]},{"CredentialTheft":["Mimikatz"]},"oops"]"#;
const TTPS_A: &str = r#"[{"tactic_name":"Impact","tactic_id":"TA0040","techniques":[{"technique_id":"T1486","technique_name":"Data Encrypted for Impact"},{"technique_id":"T1490","technique_name":"Inhibit System Recovery"}]},{"tactic_name":"Initial Access","tactic_id":"TA0001"}]"#;
const TTPS_B: &str = r#"[{"tactic_id":"TA0040","techniques":[{"technique_id":"T1486","technique_name":"Data Encrypted for Impact"},{"technique_name":"No Id"}]}]"#;

#[test]
fn tools_section_of_profile() {
    let text = tools_text_of(&Some(TOOLS_A.to_string()));
    assert_eq!(
        text,
        "- **Exfiltration**: RClone, WinSCP\n- **CredentialTheft**: Mimikatz\n- **LOLBAS**: PsExec"
    );
}

#[test]
fn tools_section_placeholders() {
    assert_eq!(tools_text_of(&None), "-");
    assert_eq!(tools_text_of(&Some("[]".to_string())), "-");
    assert_eq!(tools_text_of(&Some("not json".to_string())), "-");
    assert_eq!(tools_text_of(&Some("{\"a\":[\"b\"]}".to_string())), "-");
    assert_eq!(tools_text_of(&Some("[1, \"x\"]".to_string())), "-");
}

#[test]
fn ttps_section_of_profile() {
    let text = ttps_text_of(&Some(TTPS_A.to_string()));
    assert_eq!(
        text,
        "- **Impact (TA0040)**: \n  Data Encrypted for Impact, Inhibit System Recovery\n- **Initial Access (TA0001)**: "
    );
    let text = ttps_text_of(&Some(TTPS_B.to_string()));
    assert_eq!(text, "- **- (TA0040)**: \n  Data Encrypted for Impact, No Id");
    assert_eq!(ttps_text_of(&Some("[]".to_string())), "-");
    assert_eq!(ttps_text_of(&Some("[7]".to_string())), "- **- (-)**: ");
}

#[test]
fn tool_counts_across_groups() {
    let rows = vec![TOOLS_A.to_string(), TOOLS_B.to_string(), "garbage".to_string()];
    let counts = tool_counts(&rows);
    assert_eq!(counts.len(), 4);
    assert_eq!(counts[0].1, 2);
    assert_eq!(counts[1].1, 2);
    let top: Vec<&str> = counts[..2].iter().map(|(k, _)| k.as_str()).collect();
    assert!(top.contains(&"Exfiltration: RClone"));
    assert!(top.contains(&"CredentialTheft: Mimikatz"));
    assert_eq!(counts[2].1, 1);
    assert_eq!(counts[3].1, 1);
}

#[test]
fn technique_counts_across_groups() {
    let rows = vec![TTPS_A.to_string(), TTPS_B.to_string()];
    let counts = technique_counts(&rows);
    assert_eq!(counts[0], ("T1486 Data Encrypted for Impact".to_string(), 2));
    assert_eq!(counts.len(), 3);
    assert!(counts.contains(&("- No Id".to_string(), 1)));
    assert!(counts.contains(&("T1490 Inhibit System Recovery".to_string(), 1)));
}

#[test]
fn counts_keep_thirty_most_listed() {
    let mut items = Vec::new();
    for i in 0..40 {
        items.push(format!("\"tool{}\"", i));
    }
    let all = format!("[{{\"Misc\":[{}]}}]", items.join(","));
    let popular = "[{\"Misc\":[\"tool39\",\"tool38\"]}]".to_string();
    let counts = tool_counts(&vec![all, popular.clone(), popular]);
    assert_eq!(counts.len(), 30);
    assert_eq!(counts[0].1, 3);
    assert_eq!(counts[1].1, 3);
    assert!(counts[2..].iter().all(|(_, c)| *c == 1));
    for w in counts.windows(2) {
        assert!(w[0].1 >= w[1].1);
    }
}

#[test]
fn tool_listed_twice_by_one_group_counts_once() {
    let twice = r#"[{"Exfiltration":["RClone","RClone"]},{"Exfiltration":["RClone"],"Misc":["AnyDesk"]}]"#;
    let counts = tool_counts(&vec![twice.to_string(), TOOLS_B.to_string()]);
    assert_eq!(counts.len(), 3);
    assert_eq!(counts[0], ("Exfiltration: RClone".to_string(), 2));
    assert!(counts.contains(&("Misc: AnyDesk".to_string(), 1)));
    assert!(counts.contains(&("CredentialTheft: Mimikatz".to_string(), 1)));
    let keys = tool_keys(&vec![twice.to_string()]);
    assert_eq!(keys, vec!["Exfiltration: RClone".to_string(), "Misc: AnyDesk".to_string()]);
}

#[test]
fn technique_under_two_tactics_counts_once() {
    let row = r#"[{"tactic_id":"TA0001","techniques":[{"technique_id":"T1078","technique_name":"Valid Accounts"}]},{"tactic_id":"TA0003","techniques":[{"technique_id":"T1078","technique_name":"Valid Accounts"}]}]"#;
    let counts = technique_counts(&vec![row.to_string()]);
    assert_eq!(counts, vec![("T1078 Valid Accounts".to_string(), 1)]);
    let counts = technique_counts(&vec![row.to_string(), TTPS_A.to_string()]);
    assert_eq!(counts.len(), 3);
    assert!(counts.contains(&("T1078 Valid Accounts".to_string(), 1)));
    let keys = technique_keys(&vec![row.to_string(), row.to_string()]);
    assert_eq!(keys, vec!["T1078 Valid Accounts".to_string(), "T1078 Valid Accounts".to_string()]);
}

fn obj(members: Vec<(&str, JsonValue)>) -> JsonValue {
    JsonValue::Object(members.into_iter().map(|(k, v)| (k.to_string(), v)).collect())
}

fn s(text: &str) -> JsonValue {
    JsonValue::Str(text.to_string())
}

#[test]
fn keys_and_lines_of_parsed_arrays() {
    let tools = vec![
        obj(vec![("Exfiltration", JsonValue::Array(vec![s("RClone"), JsonValue::Null, s("RClone")]))]),
        s("stray"),
        obj(vec![("Notes", s("not a list"))]),
    ];
    assert_eq!(
        tool_keys_of_array(&tools),
        vec!["Exfiltration: RClone".to_string(), "Exfiltration: RClone".to_string()]
    );
    assert_eq!(tool_lines_of_array(&tools), vec!["- **Exfiltration**: RClone, RClone".to_string()]);
    let ttps = vec![
        obj(vec![
            ("tactic_name", s("Impact")),
            ("techniques", JsonValue::Array(vec![obj(vec![("technique_id", s("T1486"))])])),
        ]),
        obj(vec![("tactic_id", s("TA0002"))]),
    ];
    assert_eq!(technique_keys_of_array(&ttps), vec!["T1486 -".to_string()]);
    assert_eq!(
        tactic_lines_of_array(&ttps),
        vec!["- **Impact (-)**: ".to_string(), "  ".to_string(), "- **- (TA0002)**: ".to_string()]
    );
}

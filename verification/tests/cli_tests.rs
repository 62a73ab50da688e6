use torsearch::cli::{
    groups_request, notes_limit, parse_args, parse_command, victims_request, Command,
    GroupsRequest, VictimsRequest,
};

fn args(v: &[&str]) -> Vec<String> {
    v.iter().map(|s| s.to_string()).collect()
}

#[test]
fn parse_args_defaults() {
    assert_eq!(parse_args(&args(&[]), 20), (20, None, None));
}

#[test]
fn parse_args_limit_id_keyword() {
    assert_eq!(parse_args(&args(&["-50"]), 20), (50, None, None));
    assert_eq!(parse_args(&args(&["42"]), 20), (20, Some(42), None));
    assert_eq!(parse_args(&args(&["lock"]), 20), (20, None, Some("lock".to_string())));
    assert_eq!(
        parse_args(&args(&["-5", "lock", "7", "-9", "bit"]), 20),
        (9, Some(7), Some("bit".to_string()))
    );
}

#[test]
fn parse_args_ignores_unknown_dashed() {
    assert_eq!(parse_args(&args(&["--by-tools", "-", "-x"]), 20), (20, None, None));
    assert_eq!(parse_args(&args(&["-+3"]), 20), (3, None, None));
}

#[test]
fn command_names() {
    assert!(matches!(parse_command(&args(&["torsearch"])), Command::Usage));
    assert!(matches!(parse_command(&args(&["torsearch", "sync"])), Command::Sync));
    assert!(matches!(parse_command(&args(&["torsearch", "groups", "-3"])), Command::Groups));
    assert!(matches!(parse_command(&args(&["torsearch", "victims"])), Command::Victims));
    assert!(matches!(parse_command(&args(&["torsearch", "notes"])), Command::Notes));
    assert!(matches!(parse_command(&args(&["torsearch", "help"])), Command::Usage));
}

#[test]
fn groups_requests() {
    assert!(matches!(groups_request(&args(&["--by-tools", "5"])), GroupsRequest::ByTools));
    assert!(matches!(groups_request(&args(&["--by-ttps"])), GroupsRequest::ByTtps));
    assert!(matches!(groups_request(&args(&["38"])), GroupsRequest::Detail(38)));
    match groups_request(&args(&["lock"])) {
        GroupsRequest::List { pattern, limit } => {
            assert_eq!(pattern, "%lock%");
            assert_eq!(limit, 20);
        }
        _ => panic!("expected a listing"),
    }
    match groups_request(&args(&["-20"])) {
        GroupsRequest::List { pattern, limit } => {
            assert_eq!(pattern, "%");
            assert_eq!(limit, 20);
        }
        _ => panic!("expected a listing"),
    }
}

#[test]
fn victims_and_notes_requests() {
    assert!(matches!(victims_request(&args(&["--by-country"])), VictimsRequest::ByCountry));
    assert!(matches!(victims_request(&args(&["101"])), VictimsRequest::Detail(101)));
    assert!(matches!(victims_request(&args(&["-50"])), VictimsRequest::List(50)));
    assert!(matches!(victims_request(&args(&[])), VictimsRequest::List(20)));
    assert_eq!(notes_limit(&args(&[])), 50);
    assert_eq!(notes_limit(&args(&["-20"])), 20);
}

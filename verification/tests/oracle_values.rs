use hydration_service::hyperbeam::{
    ao_dry_run_url, cron_list_url, cron_once_url, endpoint_base, extract_reserves,
    get_computed_slot_url, get_current_slot_url, get_slot_url, hb_reserves_url, parse_slot_value,
    process_id_of_path, CronItem, CronListResponse,
};
use hydration_service::models::{AODryRunRequest, AODryRunResponse, AOMessage, AOTag};

const TOKEN_X: &str = "XXXXXXXXXXXXXXXXXXXXXXXXXXXXXXXXXXXXXXXXXXX";
const TOKEN_Y: &str = "YYYYYYYYYYYYYYYYYYYYYYYYYYYYYYYYYYYYYYYYYYY";

#[test]
fn tag_holds_name_and_value() {
    let tag = AOTag::new("Action", "Get-Reserves");
    assert_eq!(tag.name, "Action");
    assert_eq!(tag.value, "Get-Reserves");
    let empty = AOTag::new("", "");
    assert_eq!(empty.name, "");
    assert_eq!(empty.value, "");
}

#[test]
fn reserves_query_carries_the_fixed_tags() {
    let q = AODryRunRequest::reserves_query("proc");
    assert_eq!(q.id, "1234");
    assert_eq!(q.target, "proc");
    assert_eq!(q.owner, "1234");
    assert_eq!(q.anchor, "0");
    assert_eq!(q.data, "1234");
    let tags: Vec<(&str, &str)> = q.tags.iter().map(|t| (t.name.as_str(), t.value.as_str())).collect();
    assert_eq!(
        tags,
        vec![
            ("Action", "Get-Reserves"),
            ("Data-Protocol", "ao"),
            ("Type", "Message"),
            ("Variant", "ao.TN.1"),
        ]
    );
}

#[test]
fn reserves_come_from_token_tags_of_the_first_message() {
    let response = AODryRunResponse {
        messages: Some(vec![
            AOMessage {
                tags: vec![
                    AOTag::new("Action", "Reserves"),
                    AOTag::new(TOKEN_X, "10"),
                    AOTag::new("Reference", "77"),
                    AOTag::new(TOKEN_Y, "20"),
                    AOTag::new(TOKEN_X, "11"),
                ],
            },
            AOMessage { tags: vec![AOTag::new(TOKEN_Y, "999")] },
        ]),
        gas_used: Some(1),
    };
    let r = extract_reserves(&response);
    assert_eq!(r.len(), 2);
    assert_eq!(r.get(&TOKEN_X.to_string()).map(|s| s.as_str()), Some("11"));
    assert_eq!(r.get(&TOKEN_Y.to_string()).map(|s| s.as_str()), Some("20"));
    assert!(!r.contains_key(&"Action".to_string()));
}

#[test]
fn no_message_means_no_reserves() {
    assert_eq!(extract_reserves(&AODryRunResponse { messages: None, gas_used: None }).len(), 0);
    assert_eq!(extract_reserves(&AODryRunResponse { messages: Some(vec![]), gas_used: None }).len(), 0);
    let untagged = AODryRunResponse { messages: Some(vec![AOMessage { tags: vec![] }]), gas_used: None };
    assert_eq!(extract_reserves(&untagged).len(), 0);
}

#[test]
fn cron_envelope_must_report_200() {
    let item = CronItem {
        created_at: 5,
        path: "/a~process@1.0/now".to_string(),
        pid: "pid".to_string(),
        task_id: "t".to_string(),
        cron_type: "once".to_string(),
    };
    let ok = CronListResponse { body: vec![item], device: "d".to_string(), status: 200 };
    let items = ok.into_items().unwrap();
    assert_eq!(items.len(), 1);
    assert_eq!(items[0].created_at, 5);
    let bad = CronListResponse { body: vec![], device: "d".to_string(), status: 500 };
    assert_eq!(bad.into_items().err(), Some(500));
    let odd = CronListResponse { body: vec![], device: "d".to_string(), status: 201 };
    assert_eq!(odd.into_items().err(), Some(201));
}

#[test]
fn cron_path_names_the_process_before_the_tilde() {
    assert_eq!(process_id_of_path("/abc~process@1.0/now").as_deref(), Some("abc"));
    assert_eq!(process_id_of_path("/abc").as_deref(), Some("abc"));
    assert_eq!(process_id_of_path("/").as_deref(), Some(""));
    assert_eq!(process_id_of_path("/~x").as_deref(), Some(""));
    assert_eq!(process_id_of_path("/a~b~c").as_deref(), Some("a"));
    assert_eq!(process_id_of_path("/a/b~c").as_deref(), Some("a/b"));
    assert_eq!(process_id_of_path("/pr\u{e9}~x").as_deref(), Some("pr\u{e9}"));
    assert_eq!(process_id_of_path("abc~process"), None);
    assert_eq!(process_id_of_path(""), None);
    assert_eq!(process_id_of_path("~/a"), None);
}

#[test]
fn slot_body_is_a_trimmed_decimal_number() {
    assert_eq!(parse_slot_value("42"), Some(42));
    assert_eq!(parse_slot_value("42\n"), Some(42));
    assert_eq!(parse_slot_value("  \t42 \r\n"), Some(42));
    assert_eq!(parse_slot_value("\u{a0}7\u{3000}"), Some(7));
    assert_eq!(parse_slot_value("+7"), Some(7));
    assert_eq!(parse_slot_value("007"), Some(7));
    assert_eq!(parse_slot_value("0"), Some(0));
    assert_eq!(parse_slot_value("18446744073709551615"), Some(u64::MAX));
    assert_eq!(parse_slot_value("018446744073709551615"), Some(u64::MAX));
}

#[test]
fn slot_body_that_is_no_number_is_refused() {
    assert_eq!(parse_slot_value(""), None);
    assert_eq!(parse_slot_value("   "), None);
    assert_eq!(parse_slot_value("+"), None);
    assert_eq!(parse_slot_value("-1"), None);
    assert_eq!(parse_slot_value("++1"), None);
    assert_eq!(parse_slot_value("1 2"), None);
    assert_eq!(parse_slot_value("12a"), None);
    assert_eq!(parse_slot_value("a12"), None);
    assert_eq!(parse_slot_value("1.5"), None);
    assert_eq!(parse_slot_value("+ 1"), None);
    assert_eq!(parse_slot_value("18446744073709551616"), None);
    assert_eq!(parse_slot_value("99999999999999999999999"), None);
    assert_eq!(parse_slot_value("\u{664}\u{662}"), None);
}

#[test]
fn slot_body_agrees_with_the_standard_parser() {
    for body in ["5", " 5", "5 ", "+5", "-5", "", " ", "05", "5x", "x", "18446744073709551616", "\n12\n", "1_0", "0x10", "+0", "\u{2003}9\u{2003}"] {
        assert_eq!(parse_slot_value(body), body.trim().parse::<u64>().ok(), "body {:?}", body);
    }
}

#[test]
fn addresses_are_assembled_from_base_and_id() {
    assert_eq!(
        cron_once_url("http://h:1", "pid"),
        "http://h:1/~cron@1.0/once?cron-path=/pid~process@1.0/now"
    );
    assert_eq!(get_slot_url("http://h:1", "pid", "x/y"), "http://h:1/pid~process@1.0/x/y");
    assert_eq!(get_computed_slot_url("b", "p"), "b/p~process@1.0/compute/at-slot");
    assert_eq!(get_current_slot_url("b", "p"), "b/p~process@1.0/slot/current");
    assert_eq!(hb_reserves_url("b", "p"), "b/p~process@1.0/now/reserves");
    assert_eq!(ao_dry_run_url("https://cu", "p"), "https://cu/dry-run?process-id=p");
    assert_eq!(cron_list_url("b"), "b/~cron@1.0/list/serialize~json@1.0");
    assert_eq!(cron_once_url("", ""), "/~cron@1.0/once?cron-path=/~process@1.0/now");
}

#[test]
fn own_endpoint_wins_over_the_default() {
    assert_eq!(endpoint_base(Some("http://own"), "http://default"), "http://own");
    assert_eq!(endpoint_base(None, "http://default"), "http://default");
}

use src_utils::connections::{
    check_access, login_time_from, plan_user_command, ClientData, CommandPlan, Connections,
};

#[test]
fn check_access_empty_allows() {
    assert!(check_access(None, None, "1.2.3.4"));
}

#[test]
fn check_access_matches_prefix() {
    assert!(check_access(Some("192.168"), None, "192.168.1.42"));
    assert!(!check_access(Some("10.0"), None, "192.168.1.1"));
}

#[test]
fn check_access_refuses_empty_address() {
    assert!(!check_access(None, None, ""));
    assert!(!check_access(Some("1"), None, ""));
}

#[test]
fn check_access_empty_list_text_accepts() {
    assert!(check_access(Some(""), None, "10.1.1.1"));
    assert!(check_access(Some(""), Some(""), "10.1.1.1"));
}

#[test]
fn check_access_splits_on_all_separators() {
    assert!(check_access(Some("10.0 192.168\t172.16"), None, "172.16.0.9"));
    assert!(check_access(Some("10.0\n192.168"), None, "192.168.4.4"));
    assert!(!check_access(Some("10.0,,192.168"), None, "8.8.8.8"));
}

#[test]
fn check_access_allow_once_adds_entries() {
    assert!(check_access(Some("10.0"), Some("192.168"), "192.168.1.1"));
    assert!(check_access(None, Some("192.168"), "192.168.1.1"));
    assert!(!check_access(None, Some("192.168"), "10.0.0.1"));
}

#[test]
fn allow_once_keeps_allow_list_grants() {
    assert!(check_access(Some("10.0"), None, "10.0.0.7"));
    assert!(check_access(Some("10.0"), Some("172.16"), "10.0.0.7"));
}

#[test]
fn empty_allow_list_with_allow_once_restricts() {
    assert!(!check_access(Some(""), Some("10.0"), "192.168.1.1"));
}

#[test]
fn client_new_sets_fields() {
    let c = ClientData::new(7, "10.1.2.3", Some(5901));
    assert_eq!(c.uid, 7);
    assert_eq!(c.host, "10.1.2.3");
    assert_eq!(c.client_port, Some(5901));
    assert!(c.username.is_none());
    assert!(c.unixname.is_none());
    assert!(!c.login_viewonly);
    // the clock reads well after the epoch
    assert!(c.login_time > 1_000_000_000);
}

#[test]
fn connections_add_count_remove() {
    let mut conns = Connections::new();
    assert_eq!(conns.count(), 0);
    conns.add_client(ClientData::new(1, "a", None));
    conns.add_client(ClientData::new(2, "b", None));
    conns.add_client(ClientData::new(1, "c", None));
    assert_eq!(conns.count(), 3);
    let r = conns.remove_client_by_uid(1).unwrap();
    assert_eq!(r.host, "a");
    assert_eq!(conns.count(), 2);
    assert!(conns.remove_client_by_uid(9).is_none());
    assert_eq!(conns.count(), 2);
    let r = conns.remove_client_by_uid(1).unwrap();
    assert_eq!(r.host, "c");
}

#[test]
fn add_then_remove_gives_client_back() {
    let mut conns = Connections::new();
    conns.add_client(ClientData::new(3, "x", None));
    conns.add_client(ClientData::new(4, "y", Some(1)));
    let before = conns.list_clients();
    conns.add_client(ClientData::new(5, "z", Some(2)));
    let r = conns.remove_client_by_uid(5).unwrap();
    assert_eq!(r.uid, 5);
    assert_eq!(r.host, "z");
    assert_eq!(conns.list_clients(), before);
}

#[test]
fn list_clients_format() {
    let mut conns = Connections::new();
    assert_eq!(conns.list_clients(), "");
    let mut c = ClientData::new(255, "::1", Some(5901));
    c.username = Some("bob".to_string());
    c.login_viewonly = true;
    conns.add_client(c);
    conns.add_client(ClientData::new(0, "10.0.0.1", None));
    assert_eq!(conns.list_clients(), "0xff:##1:5901:bob:1,0x0:10.0.0.1:-:-:0");
}

#[test]
fn list_clients_hex_uid() {
    let mut conns = Connections::new();
    conns.add_client(ClientData::new(0xdead_beef, "h", Some(0)));
    assert_eq!(conns.list_clients(), "0xdeadbeef:h:0:-:0");
}

#[test]
fn plan_user_command_rejects_blank() {
    assert!(matches!(plan_user_command("  \t", None, "accept"), CommandPlan::Reject));
}

#[test]
fn plan_user_command_env_mode() {
    let client = ClientData::new(1, "127.0.0.1", Some(5901));
    match plan_user_command("true", Some(&client), "env") {
        CommandPlan::SetEnv(vars) => {
            let want: Vec<(String, String)> = vec![
                ("RFB_CLIENT_IP".to_string(), "127.0.0.1".to_string()),
                ("RFB_CLIENT_PORT".to_string(), "5901".to_string()),
                ("RFB_USERNAME".to_string(), "-".to_string()),
                ("RFB_MODE".to_string(), "env".to_string()),
            ];
            assert_eq!(vars, want);
        }
        other => panic!("unexpected plan {:?}", other),
    }
    match plan_user_command("true", None, "env") {
        CommandPlan::SetEnv(vars) => {
            assert_eq!(vars, vec![("RFB_MODE".to_string(), "env".to_string())]);
        }
        other => panic!("unexpected plan {:?}", other),
    }
}

#[test]
fn plan_user_command_spawns_otherwise() {
    assert!(matches!(plan_user_command("/bin/true", None, "accept"), CommandPlan::Spawn));
    assert!(matches!(plan_user_command("/bin/true", None, "envx"), CommandPlan::Spawn));
}

#[test]
fn login_time_rule() {
    assert_eq!(login_time_from(Some(1_700_000_000)), 1_700_000_000);
    assert_eq!(login_time_from(None), 0);
}

#[test]
fn client_with_login_time() {
    let c = ClientData::with_login_time(7, "10.0.0.1", Some(5900), 1234);
    assert_eq!(c.uid, 7);
    assert_eq!(c.host, "10.0.0.1");
    assert_eq!(c.client_port, Some(5900));
    assert_eq!(c.username, None);
    assert_eq!(c.unixname, None);
    assert!(!c.login_viewonly);
    assert_eq!(c.login_time, 1234);
}

#[test]
fn reported_status_per_plan() {
    assert_eq!(CommandPlan::Reject.reported_status(Some(0)), None);
    assert_eq!(CommandPlan::SetEnv(Vec::new()).reported_status(None), Some(1));
    assert_eq!(CommandPlan::Spawn.reported_status(Some(3)), Some(3));
    assert_eq!(CommandPlan::Spawn.reported_status(None), Some(1));
}

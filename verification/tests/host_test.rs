use traffic_forward::effect::{Reply, Request, Step};
use traffic_forward::host::ip::{self, db_path, found, Host, Info};

fn stored_row(ip: &str, target_port: &str, local_port: &str) -> Info {
    Info {
        id: Some(1),
        ip: ip.to_string(),
        target_port: target_port.to_string(),
        local_port: local_port.to_string(),
    }
}

/// Saves `data` against a table that holds `rows`.
fn save_against(rows: &[Info], data: Info) -> (Vec<String>, Result<(), String>) {
    let (mut run, mut step) = ip::save(data);
    let mut seen = Vec::new();
    loop {
        let reply = match step {
            Step::Done(r) => return (seen, r),
            Step::Request(Request::CountIp(a)) => {
                seen.push(format!("count ip {}", a));
                Reply::Count(Ok(rows.iter().filter(|r| r.ip == a).count()))
            }
            Step::Request(Request::CountLocalPort(p)) => {
                seen.push(format!("count port {}", p));
                Reply::Count(Ok(rows.iter().filter(|r| r.local_port == p).count()))
            }
            Step::Request(Request::Insert(info)) => {
                seen.push(format!("insert {} {} {}", info.ip, info.target_port, info.local_port));
                Reply::Stored
            }
            Step::Request(other) => panic!("unexpected request {:?}", other),
        };
        assert!(run.accepts(&reply));
        step = run.resume(reply);
    }
}

#[test]
fn ip_exists() {
    let ip = "182.3.1.22";
    let is_ok = found(Ok(1));
    println!("The test is: {:?} for {}", is_ok, ip);
    assert_eq!(is_ok, Ok(true));
    assert_eq!(found(Ok(0)), Ok(false));
    assert_eq!(found(Err("no table".to_string())), Err("no table".to_string()));
}

#[test]
fn ip_save() {
    let data = Info {
        id: None,
        ip: "182.3.1.22".to_string(),
        target_port: "2233".to_string(),
        local_port: "4444".to_string(),
    };
    let (seen, is_ok) = save_against(&[], data);
    match is_ok {
        Ok(_) => assert!(true),
        Err(e) => panic!("{}", e),
    }
    assert_eq!(
        seen,
        vec![
            "count ip 182.3.1.22".to_string(),
            "count port 4444".to_string(),
            "insert 182.3.1.22 2233 4444".to_string(),
        ]
    );
}

#[test]
fn save_refuses_taken_ip_and_port() {
    let rows = [stored_row("182.3.1.22", "2233", "4444")];
    let (seen, r) = save_against(&rows, Info::new("182.3.1.22", "1", "5555"));
    assert_eq!(r, Err("IP already exists".to_string()));
    assert_eq!(seen.len(), 1);
    let (seen, r) = save_against(&rows, Info::new("182.3.1.23", "1", "4444"));
    assert_eq!(r, Err("The transit host port has been used(local_port)".to_string()));
    assert_eq!(seen.len(), 2);
}

#[test]
fn save_passes_count_failure_on() {
    let (mut run, _) = ip::save(Info::new("1.1.1.1", "1", "2"));
    let step = run.resume(Reply::Count(Err("database is locked".to_string())));
    match step {
        Step::Done(r) => assert_eq!(r, Err("database is locked".to_string())),
        Step::Request(_) => panic!("a failed count ends the save"),
    }
    assert!(!run.accepts(&Reply::Stored));
}

#[test]
fn ip_list() {
    let mut host = Host::new();
    assert_eq!(host.to_display_string(), "No Data");
    host.list.push(stored_row("192.102.11.44", "8000", "5555"));
    host.list.push(stored_row("10.0.0.1", "22", "2222"));
    println!("put ip info:");
    for info in &host.list {
        println!("{:?}", info)
    }
    assert_eq!(
        host.to_display_string(),
        "0.0.0.0:5555 -> 192.102.11.44:8000\n0.0.0.0:2222 -> 10.0.0.1:22\n"
    );
}

#[test]
fn ip_delete() {
    // Deleting the forward of an address stored in the table removes its row
    // before anything else, then clears its rules.
    let (mut run, step) = traffic_forward::service::del("182.3.1.22");
    assert!(matches!(step, Step::Request(Request::CountIp(ref a)) if a == "182.3.1.22"));
    let step = run.resume(Reply::Count(Ok(1)));
    assert!(matches!(step, Step::Request(Request::Remove(ref a)) if a == "182.3.1.22"));
    let step = run.resume(Reply::Removed(true));
    assert!(matches!(step, Step::Request(Request::Command(ref c)) if c == "iptables -t filter -vnL FORWARD --line"));
}

#[test]
fn table_path_and_row_copies() {
    assert_eq!(db_path(), "/etc/traffic_forward.db");
    let r = stored_row("182.3.1.22", "2233", "4444").duplicate();
    assert_eq!(r.ip, "182.3.1.22");
    assert_eq!(r.id, Some(1));
}

#[test]
fn defaults_are_empty() {
    let h = Host::default();
    assert!(h.list.is_empty());
    let i = Info::default();
    assert_eq!((i.id, i.ip.as_str(), i.target_port.as_str(), i.local_port.as_str()), (None, "", "", ""));
}

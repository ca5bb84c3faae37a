use traffic_forward::effect::{Reply, Request, Step};
use traffic_forward::iptables::tools::{
    self, command_outcome, command_parts, command_result, delete_rule, failure_message, find_rule_index,
    first_address, generate_forward_command, generate_postrouting_command,
    generate_prerouting_command, is_root_uid, list_rules, read_traffic, traffic_listing,
    traffic_readable, Adding, ChainType, Deleting, Traffic,
};

fn strings(v: &[&str]) -> Vec<String> {
    v.iter().map(|s| s.to_string()).collect()
}

/// Runs a forward's rules: the host address is `host`, and `answer` decides
/// how each command ends. Returns the requests made and the result.
fn run_add(
    mut run: Adding,
    mut step: Step<Result<(), String>>,
    host: &str,
    answer: &dyn Fn(&str) -> Result<Vec<String>, String>,
) -> (Vec<String>, Result<(), String>) {
    let mut seen = Vec::new();
    loop {
        match step {
            Step::Done(r) => return (seen, r),
            Step::Request(Request::LocalIp) => {
                seen.push("<local ip>".to_string());
                let reply = Reply::Address(Some(host.to_string()));
                assert!(run.accepts(&reply));
                step = run.resume(reply);
            }
            Step::Request(Request::Command(c)) => {
                let reply = Reply::Output(answer(&c));
                seen.push(c);
                assert!(run.accepts(&reply));
                step = run.resume(reply);
            }
            Step::Request(other) => panic!("unexpected request {:?}", other),
        }
    }
}

fn run_delete(
    mut run: Deleting,
    mut step: Step<Result<(), String>>,
    answer: &mut dyn FnMut(&str) -> Result<Vec<String>, String>,
) -> (Vec<String>, Result<(), String>) {
    let mut seen = Vec::new();
    loop {
        match step {
            Step::Done(r) => return (seen, r),
            Step::Request(Request::Command(c)) => {
                let reply = Reply::Output(answer(&c));
                seen.push(c);
                assert!(run.accepts(&reply));
                step = run.resume(reply);
            }
            Step::Request(other) => panic!("unexpected request {:?}", other),
        }
    }
}

#[test]
fn one_forward() {
    let (run, step) = tools::add("5005", "183.232.232.10", "444", None, None, None);
    let (seen, res) = run_add(run, step, "10.0.0.7", &|_| Ok(Vec::new()));
    assert!(res.is_ok(), "error: {}", res.err().unwrap());
    assert_eq!(
        seen,
        strings(&[
            "<local ip>",
            "iptables -t nat -I PREROUTING -p tcp --dport 5005 -j DNAT --to-destination 183.232.232.10:444",
            "iptables -t nat -I POSTROUTING -d 183.232.232.10 -p tcp --dport 444 -j SNAT --to-source 10.0.0.7",
            "iptables -t filter -I FORWARD -d 183.232.232.10",
            "iptables -t filter -I FORWARD -s 183.232.232.10",
        ])
    );
}

#[test]
fn del_forward() {
    let mut listings = vec![
        strings(&[
            "Chain FORWARD (policy ACCEPT 0 packets, 0 bytes)",
            "num   pkts bytes target     prot opt in     out     source               destination",
            "1        0     0            all  --  *      *       0.0.0.0/0            183.232.232.10",
        ]),
        strings(&["Chain FORWARD (policy ACCEPT 0 packets, 0 bytes)"]),
        strings(&["Chain POSTROUTING (policy ACCEPT 0 packets, 0 bytes)"]),
        strings(&["Chain PREROUTING (policy ACCEPT 0 packets, 0 bytes)"]),
    ]
    .into_iter();
    let (run, step) = tools::delete("183.232.232.10");
    let (seen, res) = run_delete(run, step, &mut |c| {
        if c.contains(" -D ") {
            Ok(Vec::new())
        } else {
            Ok(listings.next().unwrap())
        }
    });
    assert!(res.is_ok(), "error: {}", res.err().unwrap());
    assert_eq!(
        seen,
        strings(&[
            "iptables -t filter -vnL FORWARD --line",
            "iptables -t filter -D FORWARD 1",
            "iptables -t filter -vnL FORWARD --line",
            "iptables -t nat -vnL POSTROUTING --line",
            "iptables -t nat -vnL PREROUTING --line",
        ])
    );
}

#[test]
fn test_traffic() {
    let lines = strings(&[
        "Chain FORWARD (policy ACCEPT 0 packets, 0 bytes)",
        "num      pkts      bytes target     prot opt in     out     source               destination",
        "1          10      600            all  --  *      *       0.0.0.0/0            183.232.232.10",
        "2          12      900            all  --  *      *       183.232.232.10       0.0.0.0/0",
        "3           7      100            all  --  *      *       0.0.0.0/0            10.1.1.1",
    ]);
    let res = tools::traffic("183.232.232.10", &lines);
    println!("{:?}", res);
    assert!(res.is_ok(), "error: {}", res.err().unwrap());
    assert_eq!(res.unwrap(), Traffic { up: 600, down: 900 });
}

#[test]
fn traffic_reads_bytes_by_address_columns() {
    let lines = strings(&[
        "Chain FORWARD (policy ACCEPT 0 packets, 0 bytes)",
        "num      pkts      bytes target     prot opt in     out     source               destination",
        "1          10     1500            tcp  --  *      *       0.0.0.0/0            193.23.11.3          tcp dpt:3333",
        "2           7      900            tcp  --  *      *       193.23.11.3          0.0.0.0/0            tcp dpt:3333",
        "3           4       40 ACCEPT     all  --  *      *       0.0.0.0/0            193.23.11.3",
        "4           3       30 ACCEPT     all  --  *      *       193.23.11.3          0.0.0.0/0",
        "5           5      500            all  --  *      *       0.0.0.0/0            193.23.11.33",
        "6           6      600            all  --  *      *       10.193.23.11.3       0.0.0.0/0",
    ]);
    assert_eq!(tools::traffic("193.23.11.3", &lines), Ok(Traffic { up: 1540, down: 930 }));
    let others = strings(&[
        "1 10 1500 all -- * * 0.0.0.0/0 10.0.0.12",
        "2 7 900 all -- * * 10.0.0.12 0.0.0.0/0",
    ]);
    assert_eq!(tools::traffic("10.0.0.1", &others), Ok(Traffic { up: 0, down: 0 }));
    assert_eq!(tools::traffic("10.0.0.12", &others), Ok(Traffic { up: 1500, down: 900 }));
}

#[test]
fn rules_for_a_forward() {
    let (run, step) = tools::add("9988", "193.23.11.3", "3333", None, Some("tcp"), Some("192.168.17.131"));
    let (seen, res) = run_add(run, step, "unused", &|_| Ok(Vec::new()));
    assert!(res.is_ok());
    assert_eq!(
        seen,
        strings(&[
            "iptables -t nat -I PREROUTING -p tcp --dport 9988 -j DNAT --to-destination 193.23.11.3:3333",
            "iptables -t nat -I POSTROUTING -d 193.23.11.3 -p tcp --dport 3333 -j SNAT --to-source 192.168.17.131",
            "iptables -t filter -I FORWARD -d 193.23.11.3 -p tcp --dport 3333",
            "iptables -t filter -I FORWARD -s 193.23.11.3 -p tcp --dport 3333",
        ])
    );
}

#[test]
fn add_stops_at_failed_rule() {
    let (run, step) = tools::add("9988", "193.23.11.3", "3333", None, Some("udp"), Some("1.2.3.4"));
    let (seen, res) = run_add(run, step, "unused", &|c| {
        if c.contains("POSTROUTING") {
            Err("bad rule".to_string())
        } else {
            Ok(Vec::new())
        }
    });
    assert_eq!(res, Err("bad rule".to_string()));
    assert_eq!(seen.len(), 2);
}

#[test]
fn rule_builders_write_comments() {
    assert_eq!(
        generate_prerouting_command("80", "1.1.1.1", "8080", "udp", Some("web")),
        "iptables -t nat -I PREROUTING -p udp --dport 80 -j DNAT --to-destination 1.1.1.1:8080 -m comment --comment \"web\""
    );
    assert_eq!(
        generate_postrouting_command("1.1.1.1", "8080", "udp", None, "2.2.2.2"),
        "iptables -t nat -I POSTROUTING -d 1.1.1.1 -p udp --dport 8080 -j SNAT --to-source 2.2.2.2"
    );
}

#[test]
fn forward_rules_lower_the_protocol() {
    let f = generate_forward_command("1.1.1.1", "8080", Some("c"), Some("TCP")).unwrap();
    assert_eq!(
        f.up,
        "iptables -t filter -I FORWARD -d 1.1.1.1 -p tcp --dport 8080 -m comment --comment \"c\""
    );
    assert_eq!(
        f.down,
        "iptables -t filter -I FORWARD -s 1.1.1.1 -p tcp --dport 8080 -m comment --comment \"c\""
    );
    let g = generate_forward_command("1.1.1.1", "8080", None, None).unwrap();
    assert_eq!(g.up, "iptables -t filter -I FORWARD -d 1.1.1.1");
}

#[test]
fn chain_tables_and_names() {
    assert_eq!(ChainType::FORWARD.table(), "filter");
    assert_eq!(ChainType::PREROUTING.table(), "nat");
    assert_eq!(ChainType::POSTROUTING.name(), "POSTROUTING");
    assert_eq!(list_rules(ChainType::PREROUTING), "iptables -t nat -vnL PREROUTING --line");
    assert_eq!(delete_rule(ChainType::FORWARD, "3"), "iptables -t filter -D FORWARD 3");
}

#[test]
fn rule_number_of_first_match() {
    let lines = strings(&[
        "num   pkts bytes target     prot opt in     out     source               destination",
        "3        0     0 DNAT       tcp  --  *      *       0.0.0.0/0            0.0.0.0/0            tcp dpt:80 to:9.9.9.99:80",
        "  4\t     0     0 DNAT       tcp  --  *      *       0.0.0.0/0            0.0.0.0/0            tcp dpt:80 to:9.9.9.9:80",
        "5        0     0 DNAT       tcp  --  *      *       0.0.0.0/0            0.0.0.0/0            tcp dpt:81 to:9.9.9.9:81",
        "6        0     0 SNAT       tcp  --  *      *       0.0.0.0/0            10.0.0.12            tcp dpt:22 to:10.0.0.5",
        "7        0     0            all  --  *      *       10.0.0.1             0.0.0.0/0",
    ]);
    assert_eq!(find_rule_index(&lines, "9.9.9.9"), Some("4".to_string()));
    assert_eq!(find_rule_index(&lines, "9.9.9.99"), Some("3".to_string()));
    assert_eq!(find_rule_index(&lines, "10.0.0.12"), Some("6".to_string()));
    assert_eq!(find_rule_index(&lines, "10.0.0.1"), Some("7".to_string()));
    assert_eq!(find_rule_index(&lines, "10.0.0.5"), Some("6".to_string()));
    assert_eq!(find_rule_index(&lines, "9.9.9"), None);
    assert_eq!(find_rule_index(&lines, "8.8.8.8"), None);
}

#[test]
fn failed_deletion_ends_delete() {
    let (run, step) = tools::delete("9.9.9.9");
    let (seen, res) = run_delete(run, step, &mut |c| {
        if c.contains(" -D ") {
            Err("no such rule".to_string())
        } else {
            Ok(strings(&["7 0 0 all -- * * 9.9.9.9 0.0.0.0/0"]))
        }
    });
    assert_eq!(res, Err("no such rule".to_string()));
    assert_eq!(seen.len(), 2);
}

#[test]
fn listing_must_be_readable() {
    let bad = strings(&["1 5 x all -- * * 0.0.0.0/0 1.1.1.1"]);
    assert!(!traffic_readable(&bad, "1.1.1.1"));
    assert_eq!(read_traffic(&bad, "1.1.1.1"), None);
    assert!(traffic_readable(&bad, "2.2.2.2"));
    let short = strings(&["1.1.1.1 5"]);
    assert_eq!(read_traffic(&short, "1.1.1.1"), Some(Traffic { up: 0, down: 0 }));
    let overflow = strings(&[
        "1 0 18446744073709551615 all -- * * 0.0.0.0/0 1.1.1.1",
        "2 0 1 all -- * * 0.0.0.0/0 1.1.1.1",
    ]);
    assert_eq!(read_traffic(&overflow, "1.1.1.1"), None);
    let none: Vec<String> = Vec::new();
    assert_eq!(read_traffic(&none, "1.1.1.1"), Some(Traffic { up: 0, down: 0 }));
    assert_eq!(traffic_listing(), "iptables -t filter -vxnL FORWARD --line");
}

#[test]
fn commands_are_cut_at_spaces() {
    let (program, args) = command_parts("iptables -t  nat");
    assert_eq!(program, "iptables");
    assert_eq!(args, strings(&["-t", "", "nat"]));
}

#[test]
fn command_outcomes() {
    assert_eq!(failure_message("denied", true), "denied");
    assert_eq!(failure_message("denied", false), "deniedPermission denied (you must be root)");
    assert_eq!(command_result(true, "a\r\nb\n", ""), Ok(strings(&["a", "b"])));
    match command_result(false, "", "oops") {
        Err(e) => assert!(e == "oops" || e == "oopsPermission denied (you must be root)"),
        Ok(_) => panic!("a failed command gives an error"),
    }
    assert!(is_root_uid(0));
    assert!(!is_root_uid(1000));
    assert_eq!(command_outcome(true, "x\n", "", false), Ok(strings(&["x"])));
    assert_eq!(command_outcome(false, "", "oops", true), Err("oops".to_string()));
    assert_eq!(
        command_outcome(false, "", "oops", false),
        Err("oopsPermission denied (you must be root)".to_string())
    );
}

#[test]
fn host_address_is_first_word() {
    assert_eq!(first_address("192.168.1.5 10.0.0.2 \n"), "192.168.1.5");
    assert_eq!(first_address("192.168.1.5\n"), "192.168.1.5\n");
    assert_eq!(first_address(""), "");
}

#[test]
fn traffic_as_text() {
    let t = Traffic { up: 0, down: 1234567890 };
    assert_eq!(t.to_display_string(), "Up: 0 byte \nDown: 1234567890 byte");
    let m = Traffic { up: u64::MAX, down: 10 };
    assert_eq!(m.to_display_string(), format!("Up: {} byte \nDown: 10 byte", u64::MAX));
}

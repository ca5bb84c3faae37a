use traffic_forward::effect::{Reply, Request, Step};
use traffic_forward::host::ip::{Host, Info};
use traffic_forward::iptables::tools::Traffic;
use traffic_forward::service;

/// A pretend world: a forward table and a firewall that runs every command.
struct World {
    rows: Vec<Info>,
    log: Vec<String>,
    fail_on: Option<String>,
    listing: Vec<String>,
}

impl World {
    fn new() -> World {
        World { rows: Vec::new(), log: Vec::new(), fail_on: None, listing: Vec::new() }
    }

    fn answer(&mut self, req: Request) -> Reply {
        match req {
            Request::Command(c) => {
                self.log.push(c.clone());
                if let Some(f) = &self.fail_on {
                    if c.contains(f.as_str()) {
                        return Reply::Output(Err("iptables failed".to_string()));
                    }
                }
                if c.contains("-vxnL FORWARD") {
                    Reply::Output(Ok(self.listing.clone()))
                } else {
                    Reply::Output(Ok(Vec::new()))
                }
            }
            Request::LocalIp => {
                self.log.push("<local ip>".to_string());
                Reply::Address(Some("10.9.9.9".to_string()))
            }
            Request::CountIp(ip) => Reply::Count(Ok(self.rows.iter().filter(|r| r.ip == ip).count())),
            Request::CountLocalPort(p) => {
                Reply::Count(Ok(self.rows.iter().filter(|r| r.local_port == p).count()))
            }
            Request::Insert(info) => {
                self.log.push(format!("<insert {}>", info.ip));
                self.rows.push(info);
                Reply::Stored
            }
            Request::Remove(ip) => {
                self.log.push(format!("<remove {}>", ip));
                self.rows.retain(|r| r.ip != ip);
                Reply::Removed(true)
            }
            Request::ListHosts => Reply::Hosts(Host { list: self.rows.iter().map(|r| r.duplicate()).collect() }),
            Request::Print(line) => {
                self.log.push(format!("<print {}>", line));
                Reply::Printed
            }
        }
    }
}

fn run_unit(
    world: &mut World,
    accepts: &dyn Fn(&Reply) -> bool,
    resume: &mut dyn FnMut(Reply) -> Step<Result<(), String>>,
    mut step: Step<Result<(), String>>,
) -> Result<(), String> {
    loop {
        match step {
            Step::Done(r) => return r,
            Step::Request(req) => {
                let reply = world.answer(req);
                assert!(accepts(&reply));
                step = resume(reply);
            }
        }
    }
}

fn add(world: &mut World, ip: &str, port: &str, local: &str) -> Result<(), String> {
    let (run, step) = service::add(ip, port, local);
    let cell = std::cell::RefCell::new(run);
    run_unit(world, &|r| cell.borrow().accepts(r), &mut |r| cell.borrow_mut().resume(r), step)
}

fn del(world: &mut World, ip: &str) -> Result<(), String> {
    let (run, step) = service::del(ip);
    let cell = std::cell::RefCell::new(run);
    run_unit(world, &|r| cell.borrow().accepts(r), &mut |r| cell.borrow_mut().resume(r), step)
}

fn traffic(world: &mut World, ip: &str) -> Result<Traffic, String> {
    let (mut run, mut step) = service::traffic(ip);
    loop {
        match step {
            Step::Done(r) => return r,
            Step::Request(req) => {
                let reply = world.answer(req);
                assert!(run.accepts(&reply));
                step = run.resume(reply);
            }
        }
    }
}

#[test]
fn test_forward() {
    let target_ip = "192.168.50.2";
    let target_port = "8800";
    let local_port = "2002";
    let mut world = World::new();
    if let Err(e) = add(&mut world, target_ip, target_port, local_port) {
        assert!(false, "Forward Error: {}", e);
    } else {
        assert!(true);
    }
    assert_eq!(world.rows.len(), 1);
    assert_eq!(world.log.len(), 11);
    assert_eq!(world.log[0], "<insert 192.168.50.2>");
    assert_eq!(
        world.log[2],
        "iptables -t nat -I PREROUTING -p tcp --dport 2002 -j DNAT --to-destination 192.168.50.2:8800"
    );
    assert_eq!(world.log[4], "iptables -t filter -I FORWARD -d 192.168.50.2 -p tcp --dport 8800");
    assert_eq!(world.log[6], "<local ip>");
    assert_eq!(
        world.log[8],
        "iptables -t nat -I POSTROUTING -d 192.168.50.2 -p udp --dport 8800 -j SNAT --to-source 10.9.9.9"
    );
}

#[test]
fn add_undoes_row_when_rule_fails() {
    let mut world = World::new();
    world.fail_on = Some("-p udp --dport 8800 -j SNAT".to_string());
    let r = add(&mut world, "192.168.50.2", "8800", "2002");
    assert_eq!(r, Err("iptables failed".to_string()));
    assert!(world.rows.is_empty());
    assert_eq!(world.log.last().unwrap(), "<remove 192.168.50.2>");
}

#[test]
fn add_refuses_stored_ip() {
    let mut world = World::new();
    assert!(add(&mut world, "1.1.1.1", "80", "8080").is_ok());
    let before = world.log.len();
    assert_eq!(add(&mut world, "1.1.1.1", "81", "8081"), Err("IP already exists".to_string()));
    assert_eq!(world.log.len(), before);
}

#[test]
fn test_delete_forward() {
    let target_ip = "192.168.50.2";
    let mut world = World::new();
    add(&mut world, target_ip, "8800", "2002").unwrap();
    world.log.clear();
    if let Err(e) = del(&mut world, target_ip) {
        assert!(false, "Forward Error: {}", e);
    } else {
        assert!(true);
    }
    assert!(world.rows.is_empty());
    assert_eq!(
        world.log,
        vec![
            "<remove 192.168.50.2>",
            "iptables -t filter -vnL FORWARD --line",
            "iptables -t nat -vnL POSTROUTING --line",
            "iptables -t nat -vnL PREROUTING --line",
        ]
    );
}

#[test]
fn test_traffic_forward() {
    let target_ip = "192.168.50.2";
    let mut world = World::new();
    add(&mut world, target_ip, "8800", "2002").unwrap();
    world.listing = vec![
        "num pkts bytes target prot opt in out source destination".to_string(),
        "1 30 1000 all -- * * 0.0.0.0/0 192.168.50.2".to_string(),
        "2 40 2000 all -- * * 192.168.50.2 0.0.0.0/0".to_string(),
    ];
    let data = traffic(&mut world, target_ip);
    if let Err(e) = data {
        assert!(false, "Forward Error: {}", e);
    } else {
        println!("traffic forward: {:?}", data.unwrap());
        assert!(true);
    }
    assert_eq!(traffic(&mut world, target_ip), Ok(Traffic { up: 1000, down: 2000 }));
}

#[test]
fn traffic_needs_stored_ip() {
    let mut world = World::new();
    assert_eq!(traffic(&mut world, "5.5.5.5"), Err("No matching IP found".to_string()));
    assert!(world.log.is_empty());
}

#[test]
fn listing_and_rebuild() {
    let mut world = World::new();
    add(&mut world, "1.1.1.1", "80", "8080").unwrap();
    add(&mut world, "2.2.2.2", "81", "8081").unwrap();
    let (mut run, step) = service::list();
    let hosts = match step {
        Step::Request(req) => match run.resume(world.answer(req)) {
            Step::Done(Some(h)) => h,
            _ => panic!("listing gives the rows"),
        },
        Step::Done(_) => panic!("listing reads the table"),
    };
    assert_eq!(
        hosts.to_display_string(),
        "0.0.0.0:8080 -> 1.1.1.1:80\n0.0.0.0:8081 -> 2.2.2.2:81\n"
    );
    world.log.clear();
    world.fail_on = Some("-d 2.2.2.2 -p udp --dport 81 -j SNAT".to_string());
    let (run, step) = service::rebuild();
    let cell = std::cell::RefCell::new(run);
    let r = run_unit(&mut world, &|r| cell.borrow().accepts(r), &mut |r| cell.borrow_mut().resume(r), step);
    assert_eq!(r, Ok(()));
    assert!(world.log.contains(&"<print 2.2.2.2: iptables failed>".to_string()));
    assert_eq!(world.log.iter().filter(|l| l.as_str() == "<local ip>").count(), 4);
}

#[test]
fn targets_are_ip_and_port() {
    assert_eq!(
        service::parse_target("192.102.11.44:8000"),
        Some(("192.102.11.44".to_string(), "8000".to_string()))
    );
    assert_eq!(service::parse_target("192.102.11.44"), None);
    assert_eq!(service::parse_target("a:b:c"), None);
}

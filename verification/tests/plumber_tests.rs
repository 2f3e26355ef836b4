use port_plumber::addr::{IpAddress, SocketAddress};
use port_plumber::plumber::{Plumber, PlumbingDescriptor};

fn v4(bits: u32) -> IpAddress {
    IpAddress::V4 { bits }
}

#[test]
fn fresh_names_draw_increasing_distinct_addresses() {
    let mut p = Plumber::new();
    let a = p.resolve("alpha").unwrap();
    let b = p.resolve("beta").unwrap();
    let c = p.resolve("gamma").unwrap();
    // in range starts at 127.127.0.0, out range at 127.191.0.0
    assert_eq!(a.source, v4(0x7F7F_0001));
    assert_eq!(a.target, v4(0x7FBF_0001));
    assert_eq!(b.source, v4(0x7F7F_0002));
    assert_eq!(b.target, v4(0x7FBF_0002));
    assert_eq!(c.source, v4(0x7F7F_0003));
    assert_eq!(c.target, v4(0x7FBF_0003));
}

#[test]
fn resolve_twice_returns_identical_binding() {
    let mut p = Plumber::new();
    let first = p.resolve("svc.example").unwrap();
    let second = p.resolve("svc.example").unwrap();
    assert_eq!(first.source, second.source);
    assert_eq!(first.target, second.target);
    // no second route was created
    assert_eq!(p.routes().len(), 1);
}

#[test]
fn attach_same_in_port_twice_records_one_mapping() {
    let mut p = Plumber::new();
    let first = p
        .attach(
            "svc.example",
            PlumbingDescriptor {
                in_addr: None,
                in_port: 9000,
                out_addr: None,
                out_port: 80,
                resource: None,
            },
        )
        .unwrap();
    assert!(first.is_some());
    let second = p
        .attach(
            "svc.example",
            PlumbingDescriptor {
                in_addr: None,
                in_port: 9000,
                out_addr: None,
                out_port: 8080,
                resource: None,
            },
        )
        .unwrap();
    assert!(second.is_none());
    let routes = p.routes();
    assert_eq!(routes.len(), 1);
    assert_eq!(routes[0].sockets.len(), 1);
    assert_eq!(routes[0].sockets[0].in_port, 9000);
    assert_eq!(routes[0].sockets[0].out_port, 80);
}

#[test]
fn attach_reports_the_listener_to_run() {
    let mut p = Plumber::new();
    let listener = p
        .attach(
            "svc.example",
            PlumbingDescriptor {
                in_addr: None,
                in_port: 9000,
                out_addr: None,
                out_port: 80,
                resource: None,
            },
        )
        .unwrap()
        .unwrap();
    assert_eq!(
        listener.source,
        SocketAddress { addr: v4(0x7F7F_0001), port: 9000 }
    );
    assert_eq!(
        listener.target,
        SocketAddress { addr: v4(0x7FBF_0001), port: 80 }
    );
    assert!(listener.resource.is_none());
}

#[test]
fn attach_with_explicit_addresses_uses_them() {
    let mut p = Plumber::new();
    let listener = p
        .attach(
            "10.0.0.7",
            PlumbingDescriptor {
                in_addr: Some(v4(0x0A00_0007)),
                in_port: 5000,
                out_addr: Some(v4(0x0A00_0008)),
                out_port: 5001,
                resource: None,
            },
        )
        .unwrap()
        .unwrap();
    assert_eq!(listener.source, SocketAddress { addr: v4(0x0A00_0007), port: 5000 });
    assert_eq!(listener.target, SocketAddress { addr: v4(0x0A00_0008), port: 5001 });
    // no counter was consumed: the next fresh name still gets the first value
    let mut p2 = p;
    let b = p2.resolve("fresh").unwrap();
    assert_eq!(b.source, v4(0x7F7F_0001));
}

#[test]
fn attach_to_existing_route_keeps_route_addresses() {
    let mut p = Plumber::new();
    let binding = p.resolve("svc.example").unwrap();
    let listener = p
        .attach(
            "svc.example",
            PlumbingDescriptor {
                in_addr: Some(v4(1)),
                in_port: 9000,
                out_addr: None,
                out_port: 80,
                resource: None,
            },
        )
        .unwrap()
        .unwrap();
    // the explicit in address is ignored: the route already has its own
    assert_eq!(listener.source, SocketAddress { addr: binding.source, port: 9000 });
    assert_eq!(listener.target, SocketAddress { addr: binding.target, port: 80 });
}

#[test]
fn join_drains_routes_in_creation_order() {
    let mut p = Plumber::new();
    p.resolve("one").unwrap();
    p.resolve("two").unwrap();
    let routes = p.join();
    assert_eq!(routes.len(), 2);
    assert_eq!(routes[0].name, "one");
    assert_eq!(routes[1].name, "two");
}

#[test]
fn partial_override_consumes_only_the_other_counter() {
    let mut p = Plumber::new();
    let listener = p
        .attach(
            "svc.example",
            PlumbingDescriptor {
                in_addr: None,
                in_port: 9000,
                out_addr: Some(v4(0x0A00_0001)),
                out_port: 80,
                resource: None,
            },
        )
        .unwrap()
        .unwrap();
    // the in side was allocated, the out side taken from the descriptor
    assert_eq!(listener.source, SocketAddress { addr: v4(0x7F7F_0001), port: 9000 });
    assert_eq!(listener.target, SocketAddress { addr: v4(0x0A00_0001), port: 80 });
    // only the in counter moved
    let b = p.resolve("fresh").unwrap();
    assert_eq!(b.source, v4(0x7F7F_0002));
    assert_eq!(b.target, v4(0x7FBF_0001));
}

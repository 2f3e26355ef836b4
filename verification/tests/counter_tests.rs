use port_plumber::connections_counter::ConnectionCounter;

#[test]
fn fresh_counter_is_idle_since_creation() {
    let c = ConnectionCounter::new(42);
    assert_eq!(c.no_connections_since(), Some(42));
}

#[test]
fn add_add_rem_rem_ends_idle() {
    let mut c = ConnectionCounter::new(0);
    c.add_connection();
    c.add_connection();
    assert_eq!(c.no_connections_since(), None);
    c.rem_connection(10);
    assert_eq!(c.no_connections_since(), None);
    c.rem_connection(20);
    assert_eq!(c.no_connections_since(), Some(20));
}

#[test]
fn add_rem_add_ends_with_one_connection() {
    let mut c = ConnectionCounter::new(0);
    c.add_connection();
    c.rem_connection(5);
    c.add_connection();
    assert_eq!(c.no_connections_since(), None);
    // exactly one connection is live: a single removal idles the route again
    c.rem_connection(9);
    assert_eq!(c.no_connections_since(), Some(9));
}

#[test]
fn idle_timestamp_follows_last_removal() {
    let mut c = ConnectionCounter::new(1);
    c.add_connection();
    c.rem_connection(100);
    assert_eq!(c.no_connections_since(), Some(100));
    c.add_connection();
    c.rem_connection(200);
    assert_eq!(c.no_connections_since(), Some(200));
}

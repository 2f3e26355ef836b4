use port_plumber::addr::IpAddress;
use port_plumber::config::{
    CommandConfig, NamePlumbingConfig, ResourceConfig, SocketConf,
};
use port_plumber::plumber::Plumber;
use port_plumber::resolver::NameResolver;

fn v4(bits: u32) -> IpAddress {
    IpAddress::V4 { bits }
}

fn mapping(source: u16, target: u16, setup: &str) -> NamePlumbingConfig {
    NamePlumbingConfig {
        source,
        target,
        resource: ResourceConfig {
            setup: CommandConfig {
                command: String::from(setup),
                args: Vec::new(),
                workingdir: String::from("/tmp"),
            },
            warmup_millis: 0,
            healthcheck_cmd: None,
        },
    }
}

fn resolver_with(entries: Vec<(&str, Vec<NamePlumbingConfig>)>) -> NameResolver {
    let config = entries
        .into_iter()
        .map(|(suffix, confs)| {
            let sockets = confs
                .into_iter()
                .enumerate()
                .map(|(i, c)| (format!("m{i}"), c))
                .collect();
            (String::from(suffix), SocketConf { sockets })
        })
        .collect();
    NameResolver::new(config, Plumber::new())
}

#[test]
fn two_resolves_share_address_and_one_mapping() {
    let mut r = resolver_with(vec![("example", vec![mapping(9000, 80, "echo hi")])]);
    let first = r.resolve("api.svc.example").expect("suffix should match");
    let second = r.resolve("api.svc.example").expect("suffix should match");
    assert_eq!(first.source, v4(0x7F7F_0001));
    assert_eq!(second.source, first.source);
    // the first resolution records the mapping and hands out its listener
    assert_eq!(first.listeners.len(), 1);
    assert_eq!(first.listeners[0].source.addr, first.source);
    assert_eq!(first.listeners[0].source.port, 9000);
    assert_eq!(first.listeners[0].target.addr, v4(0x7FBF_0001));
    assert_eq!(first.listeners[0].target.port, 80);
    // the second resolution attaches nothing new
    assert!(second.listeners.is_empty());
    let routes = r.plumber().routes();
    assert_eq!(routes.len(), 1);
    assert_eq!(routes[0].name, "api.svc.example");
    assert_eq!(routes[0].in_addr, first.source);
    assert_eq!(routes[0].sockets.len(), 1);
    assert_eq!(routes[0].sockets[0].in_port, 9000);
    assert_eq!(routes[0].sockets[0].out_port, 80);
}

#[test]
fn rendered_command_carries_source_address_verbatim() {
    let mut r = resolver_with(vec![(
        "example",
        vec![mapping(9000, 80, "echo {{source.ip}}")],
    )]);
    let outcome = r.resolve("api.svc.example").expect("suffix should match");
    let listener = &outcome.listeners[0];
    let resource = listener.resource.as_ref().expect("mapping carries a resource");
    assert_eq!(resource.setup.command, "echo 127.127.0.1");
}

#[test]
fn template_sees_target_name_and_parts() {
    let mut r = resolver_with(vec![(
        "example",
        vec![mapping(
            9000,
            80,
            "run {{target.ip}} {{url.full}} {{url.parts.0}} {{url.parts.2}}",
        )],
    )]);
    let outcome = r.resolve("api.svc.example").expect("suffix should match");
    let resource = outcome.listeners[0].resource.as_ref().unwrap();
    assert_eq!(
        resource.setup.command,
        "run 127.191.0.1 api.svc.example example api"
    );
}

#[test]
fn unmatched_name_resolves_to_nothing() {
    let mut r = resolver_with(vec![("example", vec![mapping(9000, 80, "echo hi")])]);
    assert!(r.resolve("api.svc.org").is_none());
    assert_eq!(r.plumber().routes().len(), 0);
}

#[test]
fn longest_matching_suffix_wins() {
    let mut r = resolver_with(vec![
        ("example", vec![mapping(9000, 80, "echo short")]),
        ("svc.example", vec![mapping(9100, 81, "echo long")]),
    ]);
    let outcome = r.resolve("api.svc.example").expect("suffix should match");
    assert_eq!(outcome.listeners.len(), 1);
    assert_eq!(outcome.listeners[0].source.port, 9100);
}

#[test]
fn failing_template_skips_its_mapping_only() {
    let mut r = resolver_with(vec![(
        "example",
        vec![
            mapping(9000, 80, "echo {{#if}}broken"),
            mapping(9001, 81, "echo fine"),
        ],
    )]);
    let outcome = r.resolve("a.example").expect("suffix should match");
    assert_eq!(outcome.listeners.len(), 1);
    assert_eq!(outcome.listeners[0].source.port, 9001);
    // only the rendered mapping was recorded
    let routes = r.plumber().routes();
    assert_eq!(routes[0].sockets.len(), 1);
    assert_eq!(routes[0].sockets[0].in_port, 9001);
}

#[test]
fn rendered_arguments_and_workingdir() {
    let conf = NamePlumbingConfig {
        source: 9000,
        target: 80,
        resource: ResourceConfig {
            setup: CommandConfig {
                command: String::from("serve"),
                args: vec![String::from("--bind"), String::from("{{source.ip}}")],
                workingdir: String::from("/srv/{{url.parts.0}}"),
            },
            warmup_millis: 250,
            healthcheck_cmd: None,
        },
    };
    let mut r = resolver_with(vec![("example", vec![conf])]);
    let outcome = r.resolve("web.example").expect("suffix should match");
    let resource = outcome.listeners[0].resource.as_ref().unwrap();
    assert_eq!(resource.setup.command, "serve");
    assert_eq!(resource.setup.args, vec!["--bind", "127.127.0.1"]);
    assert_eq!(resource.setup.workingdir, "/srv/example");
    assert_eq!(resource.warmup_millis, 250);
}

#[test]
fn empty_suffix_matches_everything_but_loses_to_longer() {
    let mut r = resolver_with(vec![
        ("", vec![mapping(7000, 70, "echo any")]),
        ("example", vec![mapping(9000, 80, "echo example")]),
    ]);
    let outcome = r.resolve("x.example").expect("some suffix matches");
    assert_eq!(outcome.listeners[0].source.port, 9000);
    let outcome = r.resolve("elsewhere.org").expect("the empty suffix matches");
    assert_eq!(outcome.listeners[0].source.port, 7000);
}

#[test]
fn consecutive_dots_yield_empty_labels() {
    let mut r = resolver_with(vec![("b", vec![mapping(9000, 80, "p{{url.parts.1}}q")])]);
    let outcome = r.resolve("a..b").expect("suffix should match");
    let resource = outcome.listeners[0].resource.as_ref().unwrap();
    // labels of "a..b" right-to-left: "b", "", "a"
    assert_eq!(resource.setup.command, "pq");
}

#[test]
fn inline_partial_mapping_is_skipped() {
    let mut r = resolver_with(vec![(
        "example",
        vec![
            mapping(9000, 80, "{{#*inline \"p\"}}x{{/inline}}{{>p}}"),
            mapping(9001, 81, "echo fine"),
        ],
    )]);
    let outcome = r.resolve("a.example").expect("suffix should match");
    assert_eq!(outcome.listeners.len(), 1);
    assert_eq!(outcome.listeners[0].source.port, 9001);
}

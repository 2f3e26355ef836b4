use port_plumber::addr::IpAddress;
use port_plumber::config::CommandConfig;
use port_plumber::resolver::{EndpointParam, TemplateParams, UrlParam};

fn params(name: &str, parts: Vec<&str>) -> String {
    TemplateParams {
        source: EndpointParam { ip: IpAddress::V4 { bits: 0x7F7F_0001 } },
        target: EndpointParam { ip: IpAddress::V4 { bits: 0x7FBF_0001 } },
        url: UrlParam {
            full: String::from(name),
            parts: parts.into_iter().map(String::from).collect(),
        },
    }
    .to_json()
}

#[test]
fn rendering_substitutes_placeholders() {
    let data = params("api.svc.example", vec!["example", "svc", "api"]);
    let config = CommandConfig {
        command: String::from("x{{url.full}}y"),
        args: vec![String::from("{{source.ip}}:{{target.ip}}")],
        workingdir: String::from("/tmp"),
    };
    let rendered = config.render_template(&data).expect("template should render");
    assert_eq!(rendered.command, "xapi.svc.exampley");
    assert_eq!(rendered.args, vec!["127.127.0.1:127.191.0.1"]);
    assert_eq!(rendered.workingdir, "/tmp");
}

#[test]
fn rendering_fails_as_a_whole_on_a_broken_part() {
    let data = params("n", vec!["n"]);
    let config = CommandConfig {
        command: String::from("fine"),
        args: vec![String::from("{{#if}}broken")],
        workingdir: String::from("/tmp"),
    };
    assert!(config.render_template(&data).is_none());
}

#[test]
fn plain_text_renders_to_itself() {
    let data = params("n", vec!["n"]);
    let config = CommandConfig {
        command: String::from("echo plain"),
        args: Vec::new(),
        workingdir: String::from("/var/empty"),
    };
    let rendered = config.render_template(&data).expect("template should render");
    assert_eq!(rendered.command, "echo plain");
    assert_eq!(rendered.workingdir, "/var/empty");
}

#[test]
fn inline_partial_templates_are_refused() {
    let data = params("n", vec!["n"]);
    let config = CommandConfig {
        command: String::from("{{#*inline \"a\"}}{{>b}}{{/inline}}{{#*inline \"b\"}}{{>a}}{{/inline}}{{>a}}"),
        args: Vec::new(),
        workingdir: String::from("/tmp"),
    };
    assert!(config.render_template(&data).is_none());
}

#[test]
fn decorator_openers_with_whitespace_or_tilde_are_refused() {
    let data = params("n", vec!["n"]);
    for template in [
        "{{ # * inline \"x\"}}a{{/inline}}",
        "{{~#*inline \"x\"}}a{{/inline}}",
        "{{*decorator}}",
        "{{ * decorator}}",
    ] {
        let config = CommandConfig {
            command: String::from(template),
            args: Vec::new(),
            workingdir: String::from("/tmp"),
        };
        assert!(config.render_template(&data).is_none(), "{template} should be refused");
    }
}

#[test]
fn literal_stars_outside_tags_still_render() {
    let data = params("n", vec!["n"]);
    let config = CommandConfig {
        command: String::from("echo a*b {{url.full}} * c"),
        args: Vec::new(),
        workingdir: String::from("/tmp"),
    };
    let rendered = config.render_template(&data).expect("plain stars are fine");
    assert_eq!(rendered.command, "echo a*b n * c");
}

use port_plumber::addr::{Increment, IpAddress};
use port_plumber::resolver::{EndpointParam, TemplateParams, UrlParam};

#[test]
fn v4_addresses_display_as_dotted_decimal() {
    let a = IpAddress::V4 { bits: 0x7F7F_0001 };
    assert_eq!(a.to_display_string(), "127.127.0.1");
    let b = IpAddress::V4 { bits: 0xC0A8_FF10 };
    assert_eq!(b.to_display_string(), "192.168.255.16");
    let z = IpAddress::V4 { bits: 0 };
    assert_eq!(z.to_display_string(), "0.0.0.0");
}

#[test]
fn v6_addresses_display_as_hex_groups() {
    let a = IpAddress::V6 { bits: 1 };
    assert_eq!(a.to_display_string(), "0:0:0:0:0:0:0:1");
    let b = IpAddress::V6 { bits: 0x2001_0db8_0000_0000_0000_0000_0000_00ff };
    assert_eq!(b.to_display_string(), "2001:db8:0:0:0:0:0:ff");
}

#[test]
fn increment_steps_to_the_next_v4_address() {
    let mut a = IpAddress::V4 { bits: 0x7F7F_0000 };
    let r = a.increment();
    assert_eq!(r, IpAddress::V4 { bits: 0x7F7F_0001 });
    assert_eq!(a, IpAddress::V4 { bits: 0x7F7F_0001 });
    let r = a.increment();
    assert_eq!(r, IpAddress::V4 { bits: 0x7F7F_0002 });
}

#[test]
fn template_params_render_to_exact_json() {
    let params = TemplateParams {
        source: EndpointParam { ip: IpAddress::V4 { bits: 0x7F7F_0001 } },
        target: EndpointParam { ip: IpAddress::V4 { bits: 0x7FBF_0001 } },
        url: UrlParam {
            full: String::from("a.b"),
            parts: vec![String::from("b"), String::from("a")],
        },
    };
    let expected = "{\"source\":{\"ip\":\"127.127.0.1\"},\"target\":{\"ip\":\"127.191.0.1\"},\"url\":{\"full\":\"a.b\",\"parts\":{\"0\":\"b\",\"1\":\"a\"}}}";
    assert_eq!(params.to_json(), expected);
}

#[test]
fn json_parameters_escape_special_characters() {
    let params = TemplateParams {
        source: EndpointParam { ip: IpAddress::V4 { bits: 0 } },
        target: EndpointParam { ip: IpAddress::V4 { bits: 0 } },
        url: UrlParam {
            full: String::from("a\"b\\c\nd"),
            parts: Vec::new(),
        },
    };
    let json = params.to_json();
    assert!(json.contains("\"full\":\"a\\\"b\\\\c\\u000ad\""));
}

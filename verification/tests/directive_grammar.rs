use proxyjs::directive::ProxyParseError;
use proxyjs::parser::{Directive, ProxyParser};
use proxyjs::text::is_alnum_or_hyphen;

#[test]
fn test_direct_simple() {
    assert_eq!(ProxyParser::new("DIRECT").parse(), Ok("DIRECT".to_string()));
}

#[test]
fn test_direct_with_whitespace() {
    assert_eq!(
        ProxyParser::new("   DIRECT   ").parse(),
        Ok("DIRECT".to_string())
    );
    assert_eq!(
        ProxyParser::new("  DIRECT;;").parse(),
        Ok("DIRECT".to_string())
    );
}

#[test]
fn test_proxy_ip_no_port() {
    assert_eq!(
        ProxyParser::new("PROXY 192.168.0.1").parse(),
        Ok("PROXY 192.168.0.1".to_string())
    );
}

#[test]
fn test_proxy_ip_with_port() {
    assert_eq!(
        ProxyParser::new("PROXY 192.168.0.1:8080").parse(),
        Ok("PROXY 192.168.0.1:8080".to_string())
    );
}

#[test]
fn test_proxy_hostname_no_port() {
    assert_eq!(
        ProxyParser::new("PROXY proxy.example.com").parse(),
        Ok("PROXY proxy.example.com".to_string())
    );
}

#[test]
fn test_proxy_hostname_with_port() {
    assert_eq!(
        ProxyParser::new("PROXY proxy.example.com:8080").parse(),
        Ok("PROXY proxy.example.com:8080".to_string())
    );
}

#[test]
fn test_trailing_junk_ignored() {
    assert_eq!(
        ProxyParser::new(" PROXY proxy.example.com:8080 ;;  ").parse(),
        Ok("PROXY proxy.example.com:8080".to_string())
    );
}

#[test]
fn test_invalid_prefix() {
    assert_eq!(
        ProxyParser::new("INVALID proxy.example.com").parse(),
        Err(ProxyParseError::UnexpectedToken)
    );
}

#[test]
fn test_proxy_hostname_with_invalid_port() {
    assert_eq!(
        ProxyParser::new("PROXY proxy.example.com:abc").parse(),
        Err(ProxyParseError::InvalidPort)
    );
}

#[test]
fn test_proxy_missing_hostname_or_ip() {
    assert_eq!(
        ProxyParser::new("PROXY ").parse(),
        Err(ProxyParseError::MissingAddress)
    );
}

#[test]
fn test_is_alnum_or_hyphen_function() {
    assert!(is_alnum_or_hyphen('a'));
    assert!(is_alnum_or_hyphen('Z'));
    assert!(is_alnum_or_hyphen('9'));
    assert!(is_alnum_or_hyphen('-'));
    assert!(is_alnum_or_hyphen('_'));
    assert!(!is_alnum_or_hyphen('!'));
    assert!(!is_alnum_or_hyphen(' '));
}

fn parse(text: &str) -> Result<String, ProxyParseError> {
    ProxyParser::new(text).parse()
}

#[test]
fn direct_with_padding_on_both_sides() {
    assert_eq!(parse("  DIRECT  ;; "), Ok("DIRECT".to_string()));
}

#[test]
fn proxy_with_dotted_quad_and_port() {
    assert_eq!(parse("PROXY 10.0.0.1:8080"), Ok("PROXY 10.0.0.1:8080".to_string()));
}

#[test]
fn proxy_with_letters_for_a_port() {
    assert_eq!(parse("PROXY host:abc"), Err(ProxyParseError::InvalidPort));
}

#[test]
fn proxy_with_colon_and_nothing_after() {
    assert_eq!(parse("PROXY host:"), Err(ProxyParseError::InvalidPort));
    assert_eq!(parse("PROXY 1.2.3.4:"), Err(ProxyParseError::InvalidPort));
}

#[test]
fn proxy_without_address() {
    assert_eq!(parse("PROXY "), Err(ProxyParseError::MissingAddress));
    assert_eq!(parse("PROXY !host"), Err(ProxyParseError::MissingAddress));
    assert_eq!(parse("PROXY  host"), Err(ProxyParseError::MissingAddress));
}

#[test]
fn proxy_with_dot_and_no_label() {
    assert_eq!(parse("PROXY host."), Err(ProxyParseError::InvalidAddress));
    assert_eq!(parse("PROXY a..b"), Err(ProxyParseError::InvalidAddress));
}

#[test]
fn garbage_is_unexpected() {
    assert_eq!(parse("GARBAGE"), Err(ProxyParseError::UnexpectedToken));
    assert_eq!(parse(""), Err(ProxyParseError::UnexpectedToken));
    assert_eq!(parse("NONSENSE"), Err(ProxyParseError::UnexpectedToken));
}

#[test]
fn proxy_keyword_needs_its_space() {
    assert_eq!(parse("PROXY"), Err(ProxyParseError::UnexpectedToken));
    assert_eq!(parse("PROXYhost"), Err(ProxyParseError::UnexpectedToken));
    assert_eq!(parse("PROXY\thost"), Err(ProxyParseError::UnexpectedToken));
}

#[test]
fn keywords_in_either_case() {
    assert_eq!(parse("direct"), Ok("DIRECT".to_string()));
    assert_eq!(parse("Direct ;"), Ok("DIRECT".to_string()));
    assert_eq!(parse("proxy Host_1:80"), Ok("PROXY Host_1:80".to_string()));
}

#[test]
fn something_after_the_directive() {
    assert_eq!(parse("DIRECT x"), Err(ProxyParseError::UnexpectedToken));
    assert_eq!(parse("DIRECTx"), Err(ProxyParseError::UnexpectedToken));
    assert_eq!(parse("PROXY host:80 ; DIRECT"), Err(ProxyParseError::UnexpectedToken));
}

#[test]
fn dotted_quad_is_tried_first() {
    assert_eq!(parse("PROXY 1.2.3"), Ok("PROXY 1.2.3".to_string()));
    assert_eq!(parse("PROXY 1.2.3.4.5"), Err(ProxyParseError::UnexpectedToken));
    assert_eq!(parse("PROXY 1.2.3.4-x"), Err(ProxyParseError::UnexpectedToken));
    assert_eq!(parse("PROXY 1.2.3.x"), Ok("PROXY 1.2.3.x".to_string()));
}

#[test]
fn white_space_beyond_ascii() {
    assert_eq!(parse("\u{a0}DIRECT\u{2003}\u{3000};"), Ok("DIRECT".to_string()));
    assert_eq!(
        parse("\t PROXY h\u{2028};"),
        Ok("PROXY h".to_string())
    );
}

#[test]
fn canonical_form_parses_to_itself() {
    let first = parse("  proxy proxy.example.com:3128 ;; ").unwrap();
    assert_eq!(first, "PROXY proxy.example.com:3128");
    assert_eq!(parse(&first), Ok(first.clone()));
    let second = parse(" direct;").unwrap();
    assert_eq!(parse(&second), Ok(second.clone()));
}

#[test]
fn parser_steps() {
    let mut parser = ProxyParser::new("ab.12:x");
    assert_eq!(parser.peek(), Some('a'));
    assert!(!parser.advance("b"));
    assert!(parser.advance("ab"));
    assert!(parser.advance_case_insensitive("."));
    assert!(parser.advance_while(proxyjs::text::CharClass::Digit));
    assert!(!parser.advance_while(proxyjs::text::CharClass::Digit));
    assert!(!parser.read_port());
    assert_eq!(parser.peek(), Some(':'));
    assert!(!parser.only_padding_remains());
    let mut rest = ProxyParser::new("  ;");
    rest.skip_whitespace();
    assert_eq!(rest.peek(), Some(';'));
    assert!(rest.only_padding_remains());
    assert!(rest.advance(";"));
    assert_eq!(rest.peek(), None);
}

#[test]
fn finish_proxy_trims_what_was_read() {
    let mut parser = ProxyParser::new("host ;");
    assert!(parser.advance_hostname());
    parser.skip_whitespace();
    assert_eq!(parser.finish_proxy(0), Ok("PROXY host".to_string()));
    let mut other = ProxyParser::new("host x");
    assert_eq!(other.parse_server_addr(), Ok(()));
    assert_eq!(other.finish_proxy(0), Err(ProxyParseError::UnexpectedToken));
    let mut quad = ProxyParser::new("1.2.3.4:5 ");
    assert!(quad.advance_digits_dot_quad());
    assert_eq!(quad.finish_proxy(0), Ok("PROXY 1.2.3.4:5".to_string()));
}

#[test]
fn directive_taken_apart() {
    assert_eq!(Directive::parse("  DIRECT  ;; "), Ok(Directive::Direct));
    assert_eq!(
        Directive::parse("PROXY 10.0.0.1:8080"),
        Ok(Directive::Proxy {
            address: "10.0.0.1".to_string(),
            port: Some("8080".to_string()),
        })
    );
    assert_eq!(
        Directive::parse(" proxy proxy.example.com ;"),
        Ok(Directive::Proxy {
            address: "proxy.example.com".to_string(),
            port: None,
        })
    );
    assert_eq!(
        Directive::parse("PROXY host:0080"),
        Ok(Directive::Proxy {
            address: "host".to_string(),
            port: Some("0080".to_string()),
        })
    );
    assert_eq!(Directive::parse("PROXY host:abc"), Err(ProxyParseError::InvalidPort));
    assert_eq!(Directive::parse("PROXY "), Err(ProxyParseError::MissingAddress));
    assert_eq!(Directive::parse("GARBAGE"), Err(ProxyParseError::UnexpectedToken));
    assert_eq!(Directive::parse("PROXY a."), Err(ProxyParseError::InvalidAddress));
}

#[test]
fn directive_rendered_and_parsed_again() {
    for text in [
        "DIRECT",
        "PROXY host",
        "PROXY host:1",
        "PROXY 10.0.0.1:8080",
        "PROXY 192.168.0.1",
        "PROXY a-b_c.example.com:65536",
        "PROXY 1.2.3",
        "PROXY 1.2.3.x4",
    ] {
        let directive = Directive::parse(text).unwrap();
        assert_eq!(directive.render(), text);
        assert_eq!(parse(text), Ok(text.to_string()));
    }
    let direct = Directive::Direct;
    assert_eq!(direct.render(), "DIRECT");
    let proxy = Directive::Proxy {
        address: "p.example".to_string(),
        port: Some("3128".to_string()),
    };
    assert_eq!(proxy.render(), "PROXY p.example:3128");
    assert_eq!(Directive::parse(&proxy.render()), Ok(proxy));
}

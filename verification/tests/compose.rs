use zion::import::compose::{parse, parse_flow_seq, split_key, split_label, unquote};
use zion::import::compose::{ComposeFile, Service};

fn svc<'a>(f: &'a ComposeFile, name: &str) -> &'a Service {
    f.services
        .iter()
        .find(|s| s.name == name)
        .unwrap_or_else(|| panic!("no service {name}"))
}

#[test]
fn labels_in_list_form() {
    let src = "\
services:
  api:
    build: .
    labels:
      - \"traefik.enable=true\"
      - \"traefik.http.routers.api.rule=Host(`api.example.com`)\"
      - \"traefik.http.services.api.loadbalancer.server.port=8000\"
";
    let f = parse(src).expect("parse");
    let api = svc(&f, "api");
    assert_eq!(api.labels.len(), 3);
    assert_eq!(api.labels[0].key, "traefik.enable");
    assert_eq!(api.labels[0].value, "true");
    assert_eq!(
        api.labels[1].value, "Host(`api.example.com`)",
        "backticks must survive"
    );
    assert_eq!(api.labels[1].line, 6);
}

#[test]
fn labels_unquoted_list_form() {
    let src = "\
services:
  frontend:
    labels:
      - traefik.enable=true
      - traefik.http.routers.fe.rule=Host(`${PUBLIC_FQDN}`)
";
    let f = parse(src).expect("parse");
    let fe = svc(&f, "frontend");
    assert_eq!(fe.labels[1].value, "Host(`${PUBLIC_FQDN}`)");
}

#[test]
fn labels_in_map_form() {
    let src = "\
services:
  api:
    labels:
      traefik.enable: \"true\"
      traefik.http.routers.api.rule: Host(`a.test`)
";
    let f = parse(src).expect("parse");
    let api = svc(&f, "api");
    assert_eq!(api.labels.len(), 2);
    assert_eq!(api.labels[0].key, "traefik.enable");
    assert_eq!(api.labels[0].value, "true");
    assert_eq!(api.labels[1].value, "Host(`a.test`)");
}

#[test]
fn double_ampersand_in_a_rule_is_a_value_not_an_anchor() {
    let src = "\
services:
  api:
    labels:
      - traefik.http.routers.api.rule=Host(`a.test`) && PathPrefix(`/api`)
";
    let f = parse(src).expect("parse");
    assert_eq!(
        svc(&f, "api").labels[0].value,
        "Host(`a.test`) && PathPrefix(`/api`)"
    );
}

#[test]
fn command_block_sequence() {
    let src = "\
services:
  traefik:
    image: traefik:v3.3
    command:
      - \"--providers.docker=true\"
      - \"--entrypoints.web.address=:80\"
";
    let f = parse(src).expect("parse");
    let t = svc(&f, "traefik");
    assert_eq!(t.image.as_deref(), Some("traefik:v3.3"));
    assert_eq!(t.command.len(), 2);
    assert_eq!(t.command[1], "--entrypoints.web.address=:80");
}

#[test]
fn command_flow_sequence() {
    let src = "\
services:
  nginx:
    command: [\"sh\", \"-c\", \"echo nginx disabled, sleep infinity\"]
    ports: []
";
    let f = parse(src).expect("parse");
    let n = svc(&f, "nginx");
    assert_eq!(n.command.len(), 3);
    assert_eq!(n.command[2], "echo nginx disabled, sleep infinity");
}

#[test]
fn image_with_a_tag_or_digest_keeps_its_colons() {
    let src = "\
services:
  t:
    image: traefik:v3@sha256:6b9cbca6fac42ab0075f5437d8dc1685cfd188626d8d515839ea94f8b6271c42
";
    let f = parse(src).expect("parse");
    assert!(svc(&f, "t").image.as_deref().unwrap().contains("@sha256:"));
}

#[test]
fn nested_blocks_do_not_leak_into_the_parent_service() {
    let src = "\
services:
  a:
    image: a:1
    deploy:
      resources:
        limits:
          memory: 128M
    labels:
      - x=1
  b:
    image: b:1
    labels:
      - y=2
";
    let f = parse(src).expect("parse");
    assert_eq!(f.services.len(), 2);
    assert_eq!(svc(&f, "a").labels.len(), 1);
    assert_eq!(svc(&f, "b").labels[0].key, "y");
    assert_eq!(svc(&f, "b").image.as_deref(), Some("b:1"));
}

#[test]
fn top_level_keys_other_than_services_are_ignored() {
    let src = "\
version: \"3.8\"
networks:
  frontend:
    driver: bridge
services:
  a:
    labels:
      - x=1
volumes:
  data:
";
    let f = parse(src).expect("parse");
    assert_eq!(f.services.len(), 1);
    assert_eq!(svc(&f, "a").labels[0].key, "x");
}

#[test]
fn comments_are_stripped_outside_quotes_only() {
    let src = "\
services:
  a:
    # a full-line comment
    image: nginx:alpine  # trailing comment
    labels:
      - \"traefik.http.routers.a.rule=Host(`a.test`) # not a comment\"
";
    let f = parse(src).expect("parse");
    assert_eq!(svc(&f, "a").image.as_deref(), Some("nginx:alpine"));
    assert!(svc(&f, "a").labels[0].value.contains("# not a comment"));
}

#[test]
fn label_without_equals_keeps_an_empty_value() {
    let src = "services:\n  a:\n    labels:\n      - traefik.enable\n";
    let f = parse(src).expect("parse");
    assert_eq!(svc(&f, "a").labels[0].key, "traefik.enable");
    assert_eq!(svc(&f, "a").labels[0].value, "");
}

#[test]
fn compose_crlf_input() {
    let src = "services:\r\n  a:\r\n    labels:\r\n      - x=1\r\n";
    let f = parse(src).expect("parse");
    assert_eq!(svc(&f, "a").labels[0].value, "1");
}

#[test]
fn empty_and_serviceless_files() {
    assert_eq!(parse("").expect("parse").services.len(), 0);
    assert_eq!(parse("version: \"3\"\n").expect("parse").services.len(), 0);
}

#[test]
fn rejects_anchors_and_aliases() {
    let anchor = "services:\n  a: &base\n    image: x\n  b: *base\n";
    let e = parse(anchor).expect_err("must fail");
    assert!(e.msg.contains("anchor"), "{}", e.to_text());
    assert_eq!(e.line, 2);

    let alias = "services:\n  a:\n    image: *ref\n";
    let e = parse(alias).expect_err("must fail");
    assert!(e.msg.contains("alias"), "{}", e.to_text());
}

#[test]
fn rejects_merge_keys() {
    let src = "services:\n  a:\n    <<: *base\n    image: x\n";
    let e = parse(src).expect_err("must fail");
    assert!(e.msg.contains("merge key"), "{}", e.to_text());
    assert_eq!(e.line, 3);
}

#[test]
fn rejects_tab_indentation() {
    let src = "services:\n\ta:\n\t\timage: x\n";
    let e = parse(src).expect_err("must fail");
    assert!(e.msg.contains("tab"), "{}", e.to_text());
    assert_eq!(e.line, 2);
}

#[test]
fn rejects_multi_document_streams() {
    let src = "services:\n  a:\n    image: x\n---\nservices:\n  b:\n    image: y\n";
    let e = parse(src).expect_err("must fail");
    assert!(e.msg.contains("multi-document"), "{}", e.to_text());
}

#[test]
fn leading_document_marker_is_fine() {
    let src = "---\nservices:\n  a:\n    labels:\n      - x=1\n";
    assert_eq!(parse(src).expect("parse").services.len(), 1);
}

#[test]
fn rejects_unterminated_quotes() {
    let src = "services:\n  a:\n    image: \"nginx\n";
    let e = parse(src).expect_err("must fail");
    assert!(e.msg.contains("unterminated"), "{}", e.to_text());
}

#[test]
fn rejects_nested_flow_collections() {
    let src = "services:\n  a:\n    command: [\"sh\", [\"-c\"]]\n";
    assert!(parse(src).is_err());
}

#[test]
fn a_quoted_label_round_trips() {
    for (key, value) in [
        ("a", ""),
        ("traefik.enable", "true"),
        ("x.y1", "Host(`a.b`) - /p:1 "),
    ] {
        let src = format!("services:\n  s:\n    labels:\n      - \"{key}={value}\"\n");
        let f = parse(&src).expect("parse");
        let s = svc(&f, "s");
        assert_eq!(s.labels.len(), 1);
        assert_eq!(s.labels[0].key, key);
        assert_eq!(s.labels[0].value, value);
    }
}

#[test]
fn compose_reader_survives_odd_input() {
    for src in ["-", ":", "[", "services:\n- a", "services:\n  a: [", "'", "&a", "<<: x", "  \n :"] {
        let _ = parse(src);
    }
}

#[test]
fn pieces_of_the_reader() {
    assert_eq!(unquote("\"a\\\"b\"", 1).unwrap(), "a\"b");
    assert_eq!(unquote("'it''s'", 1).unwrap(), "it's");
    assert_eq!(unquote("plain", 1).unwrap(), "plain");
    assert_eq!(parse_flow_seq("[a, \"b, c\"]", 1).unwrap(), vec!["a", "b, c"]);
    let l = split_label("k=v=w", 7);
    assert_eq!((l.key.as_str(), l.value.as_str(), l.line), ("k", "v=w", 7));
    assert_eq!(
        split_key("image: a:1"),
        Some(("image".to_string(), "a:1".to_string()))
    );
    assert_eq!(split_key("no key"), None);
}

#[test]
fn a_label_round_trips() {
    for (key, value) in [
        ("traefik.enable", "true"),
        ("a", ""),
        ("k.0", "Host(`a b`) && x: y # z"),
        ("b", "x=y"),
    ] {
        let src = format!("services:\n  s:\n    labels:\n      - \"{key}={value}\"\n");
        let f = parse(&src).expect("well-formed compose must parse");
        assert_eq!(f.services.len(), 1);
        let s = svc(&f, "s");
        assert_eq!(s.line, 2);
        assert_eq!(s.labels.len(), 1);
        assert_eq!(s.labels[0].key, key);
        assert_eq!(s.labels[0].value, value);
        assert_eq!(s.labels[0].line, 4);
    }
}

#[test]
fn a_merge_key_stops_the_reader() {
    let e = parse("services:\n  a:\n    <<: *base\n    image: x\n").err().expect("refused");
    assert_eq!(e.line, 3);
    let e = parse("services:\n\ta: b\n").err().expect("refused");
    assert_eq!(e.line, 2);
}

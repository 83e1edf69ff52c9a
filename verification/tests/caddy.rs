use zion::import::caddy::convert;
use zion::import::caddy::reader::parse;
use zion::import::caddy::site::matcher_to_path;
use zion::import::caddy::vars::resolve;
use zion::import::env::{Env, Var};
use zion::import::{Conversion, ConvertError, Status};

fn env(pairs: &[(&str, &str)]) -> Env {
    Env {
        vars: pairs
            .iter()
            .map(|(k, v)| Var {
                key: k.to_string(),
                value: v.to_string(),
            })
            .collect(),
    }
}

fn convert_str(src: &str, vars: &[(&str, &str)]) -> Result<Conversion, ConvertError> {
    let cli: Vec<(String, String)> = vars
        .iter()
        .map(|(k, v)| (k.to_string(), v.to_string()))
        .collect();
    convert(src, None, &cli, None)
}

fn ok(src: &str) -> Conversion {
    convert_str(src, &[]).ok().expect("convert")
}

fn has_upstream(c: &Conversion, name: &str, url: &str) -> bool {
    c.doc
        .upstreams
        .iter()
        .any(|u| u.name == name && u.urls == vec![url.to_string()])
}

fn all_hosts(c: &Conversion, hosts: &[&str]) -> bool {
    let want: Vec<String> = hosts.iter().map(|h| h.to_string()).collect();
    c.doc.routes.iter().all(|r| r.hosts == Some(want.clone()))
}

#[test]
fn placeholder_is_a_word_not_a_brace() {
    let f = parse("{$DOMAIN:localhost} {\n  reverse_proxy api:8000\n}").unwrap();
    assert_eq!(f.sites.len(), 1);
    assert_eq!(
        f.sites[0].addresses,
        vec!["{$DOMAIN:localhost}".to_string()]
    );
    assert_eq!(f.sites[0].body.len(), 1);
    assert_eq!(f.sites[0].body[0].name, "reverse_proxy");
}

#[test]
fn global_block_then_site() {
    let f = parse("{\n  email a@b.com\n}\nexample.com {\n  reverse_proxy app:80\n}").unwrap();
    assert_eq!(f.global.len(), 1);
    assert_eq!(f.global[0].name, "email");
    assert_eq!(f.sites.len(), 1);
    assert_eq!(f.sites[0].addresses, vec!["example.com".to_string()]);
}

#[test]
fn nested_blocks_and_quoted_values() {
    let f = parse(
        "example.com {\n  handle /api/* {\n    reverse_proxy api:8000\n    header {\n      Content-Security-Policy \"default-src 'none'\"\n    }\n  }\n}",
    )
    .unwrap();
    let handle = &f.sites[0].body[0];
    assert_eq!(handle.name, "handle");
    assert_eq!(handle.args, vec!["/api/*".to_string()]);
    let inner = handle.block.as_ref().unwrap();
    assert_eq!(inner[0].name, "reverse_proxy");
    let header = &inner[1];
    assert_eq!(
        header.block.as_ref().unwrap()[0].name,
        "Content-Security-Policy"
    );
    assert_eq!(
        header.block.as_ref().unwrap()[0].args,
        vec!["default-src 'none'".to_string()]
    );
}

#[test]
fn snippet_is_captured_not_a_site() {
    let f = parse("(sec) {\n  header X-Frame-Options DENY\n}\nexample.com {\n  import sec\n  reverse_proxy app:80\n}").unwrap();
    assert!(f.snippets.iter().any(|s| s.name == "sec"));
    assert_eq!(f.sites.len(), 1);
}

#[test]
fn unterminated_block_is_a_parse_error() {
    let e = parse("example.com {\n  reverse_proxy app:80\n").unwrap_err();
    assert!(e.msg.contains("unclosed") || e.msg.contains("end of input"));
}

#[test]
fn comments_are_skipped() {
    let f = parse("# top comment\nexample.com {\n  reverse_proxy app:80  # trailing\n}").unwrap();
    assert_eq!(f.sites[0].body.len(), 1);
}

#[test]
fn matcher_paths() {
    assert_eq!(matcher_to_path(None), "/{*rest}");
    assert_eq!(matcher_to_path(Some("*")), "/{*rest}");
    assert_eq!(matcher_to_path(Some("/api/*")), "/api/{*rest}");
    assert_eq!(matcher_to_path(Some("/health")), "/health");
}

#[test]
fn resolve_default_and_unresolved() {
    let e = env(&[("SET", "v")]);
    let mut f = Vec::new();
    assert_eq!(resolve("{$SET}", &e, 1, "x", &mut f).as_deref(), Some("v"));
    assert_eq!(
        resolve("{$UNSET:def}", &e, 1, "x", &mut f).as_deref(),
        Some("def")
    );
    assert_eq!(resolve("{$MISSING}", &e, 9, "site address", &mut f), None);
    assert_eq!(f.len(), 1);
    assert_eq!(f[0].line, 9);
    assert!(f[0].detail.contains("--var MISSING="));
}

const NIS2_SHAPE: &str = r#"
{$DOMAIN:localhost} {
    header {
        Strict-Transport-Security "max-age=31536000; includeSubDomains; preload"
        X-Content-Type-Options    "nosniff"
        X-Frame-Options           "DENY"
        Referrer-Policy           "strict-origin-when-cross-origin"
        X-XSS-Protection          "1; mode=block"
        Permissions-Policy        "geolocation=(), camera=()"
        -Server
    }
    handle /api/* {
        reverse_proxy api:8000
        header {
            Content-Security-Policy "default-src 'none'; frame-ancestors 'none'"
        }
    }
    handle {
        reverse_proxy web:3000
        header {
            Content-Security-Policy "default-src 'self'"
        }
    }
    encode gzip zstd
    log {
        output stdout
        format json
    }
}
"#;

#[test]
fn nis2_shape_converts_both_routes() {
    let c = ok(NIS2_SHAPE);
    assert!(has_upstream(&c, "api", "http://api:8000"));
    assert!(has_upstream(&c, "web", "http://web:3000"));
    assert_eq!(c.doc.routes.len(), 2);
    assert!(c.doc.routes.iter().any(|r| r.path == "/api/{*rest}"));
    assert!(all_hosts(&c, &["localhost"]));
    assert!(c.doc.routes.iter().any(|r| r.csp.as_deref()
        == Some("default-src 'none'; frame-ancestors 'none'")));
    assert!(c
        .doc
        .routes
        .iter()
        .any(|r| r.csp.as_deref() == Some("default-src 'self'")));
    assert!(c.findings.iter().any(|f| f.status == Status::Partial
        && f.directive.contains("Strict-Transport-Security")));
    assert!(c
        .findings
        .iter()
        .any(|f| f.status == Status::Unsupported && f.directive.contains("X-XSS-Protection")));
    assert!(c
        .findings
        .iter()
        .any(|f| f.status == Status::Unsupported && f.directive == "encode"));
    let auto = c
        .findings
        .iter()
        .filter(|f| f.status == Status::Auto && f.directive.starts_with("header"))
        .count();
    assert!(auto >= 4);
}

#[test]
fn tls_email_emits_acme() {
    let src = "example.com {\n  reverse_proxy app:8080\n  tls ops@example.com\n}";
    let c = ok(src);
    let tls = c
        .findings
        .iter()
        .find(|f| f.directive == "tls (ACME)")
        .expect("acme finding");
    assert_eq!(tls.status, Status::Convert);
    let acme = c.doc.acme.as_ref().expect("acme");
    assert_eq!(acme.email, "ops@example.com");
    assert_eq!(acme.domains, vec!["example.com".to_string()]);
    assert_eq!(c.doc.tls_cert, "/etc/ssl/zion/zion.crt");
}

#[test]
fn acme_email_flag_opts_in_without_a_tls_directive() {
    let src = "app.example.com {\n  reverse_proxy web:3000\n}";
    let c = convert(src, None, &Vec::new(), Some("ops@example.com"))
        .ok()
        .expect("convert");
    let acme = c.doc.acme.as_ref().expect("acme");
    assert_eq!(acme.email, "ops@example.com");
    assert_eq!(acme.domains, vec!["app.example.com".to_string()]);
}

#[test]
fn explicit_cert_files_convert() {
    let src = "example.com {\n  reverse_proxy app:8080\n  tls /etc/ssl/a.crt /etc/ssl/a.key\n}";
    let c = ok(src);
    assert_eq!(c.doc.tls_cert, "/etc/ssl/a.crt");
    assert_eq!(c.doc.tls_key, "/etc/ssl/a.key");
}

#[test]
fn static_site_converts_to_mode_static() {
    let src = "example.com {\n  root * /var/www\n  file_server\n}";
    let c = ok(src);
    assert_eq!(c.doc.routes[0].serve_dir.as_deref(), Some("/var/www"));
    assert_eq!(c.doc.routes[0].path, "/{*rest}");
    assert!(c
        .findings
        .iter()
        .any(|f| f.status == Status::Convert && f.directive == "file_server"));
}

#[test]
fn hybrid_static_plus_proxy() {
    let src = "example.com {\n  handle /api/* {\n    reverse_proxy api:8000\n  }\n  root * /srv\n  file_server\n  try_files {path} /index.html\n}";
    let c = ok(src);
    assert!(has_upstream(&c, "api", "http://api:8000"));
    assert!(c.doc.routes.iter().any(|r| r.path == "/api/{*rest}"));
    let files = c
        .doc
        .routes
        .iter()
        .find(|r| r.serve_dir.is_some())
        .expect("static route");
    assert_eq!(files.serve_dir.as_deref(), Some("/srv"));
    assert!(files.spa_fallback);
}

#[test]
fn deeply_nested_blocks_error_not_stack_overflow() {
    let src = "a {\n".repeat(500);
    assert!(parse(&src).is_err());
}

#[test]
fn catchall_proxy_plus_file_server_does_not_double_route() {
    let src = "example.com {\n  handle {\n    reverse_proxy web:3000\n  }\n  root * /srv\n  file_server\n}";
    let c = ok(src);
    let n = c.doc.routes.iter().filter(|r| r.path == "/{*rest}").count();
    assert_eq!(n, 1);
    assert!(has_upstream(&c, "web", "http://web:3000"));
    assert!(c.doc.routes.iter().all(|r| r.serve_dir.is_none()));
    assert!(c
        .findings
        .iter()
        .any(|f| f.status == Status::Partial && f.directive == "file_server"));
}

#[test]
fn inline_header_csp_is_captured() {
    let src = "example.com {\n  header Content-Security-Policy \"default-src 'self'\"\n  reverse_proxy app:80\n}";
    let c = ok(src);
    assert_eq!(c.doc.routes[0].csp.as_deref(), Some("default-src 'self'"));
}

#[test]
fn cert_path_containing_at_is_not_an_acme_email() {
    let src = "example.com {\n  reverse_proxy app:80\n  tls /etc/ssl/git@host.crt /etc/ssl/git@host.key\n}";
    let c = ok(src);
    assert_eq!(c.doc.tls_cert, "/etc/ssl/git@host.crt");
    assert!(c.doc.acme.is_none());
}

#[test]
fn no_acme_without_a_real_email() {
    let src = "example.com {\n  reverse_proxy app:80\n  tls internal\n}";
    let c = ok(src);
    assert!(c.doc.acme.is_none());
}

#[test]
fn duplicate_site_addresses_are_deduped() {
    let src = "example.com, example.com:443 {\n  reverse_proxy app:80\n}";
    let c = ok(src);
    assert!(all_hosts(&c, &["example.com"]));
}

#[test]
fn root_matcher_without_a_dir_is_not_static() {
    let src = "example.com {\n  root *\n  file_server\n}";
    match convert_str(src, &[]) {
        Ok(c) => assert!(c
            .doc
            .routes
            .iter()
            .all(|r| r.serve_dir.as_deref() != Some("*"))),
        Err(ConvertError::NoRoutes(f)) => {
            assert!(f.iter().any(|x| x.status == Status::Unsupported))
        }
        Err(_) => panic!("unexpected"),
    }
}

#[test]
fn hostless_static_site_is_flagged() {
    let src = ":443 {\n  root * /var/www\n  file_server\n}";
    let c = ok(src);
    assert!(c
        .findings
        .iter()
        .any(|f| f.status == Status::Partial && f.directive.contains("hostless")));
}

#[test]
fn snippet_import_is_inlined() {
    let src = "(sec) {\n  header X-Frame-Options DENY\n}\nexample.com {\n  import sec\n  reverse_proxy app:8080\n}";
    let c = ok(src);
    assert!(c
        .findings
        .iter()
        .any(|f| f.status == Status::Auto && f.directive.contains("X-Frame-Options")));
    assert!(has_upstream(&c, "app", "http://app:8080"));
}

#[test]
fn unresolved_domain_without_default_refuses() {
    let src = "{$PUBLIC} {\n  reverse_proxy app:8080\n}";
    match convert_str(src, &[]) {
        Err(ConvertError::NoRoutes(f)) => {
            assert!(f.iter().any(|x| x.detail.contains("PUBLIC")))
        }
        Ok(c) => assert!(c.findings.iter().any(|x| x.detail.contains("PUBLIC"))),
        Err(_) => panic!("unexpected"),
    }
}

#[test]
fn var_resolves_the_domain() {
    let src = "{$PUBLIC} {\n  reverse_proxy app:8080\n}";
    let c = convert_str(src, &[("PUBLIC", "app.example.com")])
        .ok()
        .expect("convert");
    assert!(all_hosts(&c, &["app.example.com"]));
}

#[test]
fn caddy_reader_survives_odd_input() {
    for src in ["", "{", "}", "a {", "\"", "`", "{$X", "{$X:d} {\n}", "#c", "(s) {", "a,\nb {\n}"] {
        let _ = parse(src);
    }
}

#[test]
fn caddy_parse_error_names_its_line() {
    match convert_str("a {\n  \"open\n", &[]) {
        Err(ConvertError::Parse(e)) => assert!(e.contains("line "), "{e}"),
        _ => panic!("expected Parse error"),
    }
}

#[test]
fn every_site_directive_is_told() {
    let c = ok("{\n  debug\n  foo\n}\na.test {\n  encode gzip\n  respond 204\n  redir /x\n  bar\n  reverse_proxy 10.0.0.1:80\n}\n");
    for (line, directive) in [
        (2, "debug"),
        (3, "foo"),
        (6, "encode"),
        (7, "respond"),
        (8, "redir"),
        (9, "bar"),
        (10, "reverse_proxy"),
    ] {
        assert!(
            c.findings.iter().any(|f| f.line == line && f.directive == directive),
            "nothing on {directive} in line {line}"
        );
    }
}

#[test]
fn files_yield_to_a_catch_all_proxy() {
    let c = ok("a.test {\n  root * /srv/www\n  file_server\n  reverse_proxy 10.0.0.1:80\n}\n");
    assert_eq!(c.doc.routes.len(), 1);
    assert_eq!(c.doc.routes[0].path, "/{*rest}");
    assert!(c.doc.routes[0].serve_dir.is_none());
    assert!(c
        .findings
        .iter()
        .any(|f| f.status == Status::Partial && f.directive == "file_server"));
}

#[test]
fn what_a_handler_does_not_convert_is_told() {
    let c = ok(
        "example.com {\n\
         handle /api/* {\n\
         header Content-Security-Policy \"default-src 'self'\"\n\
         uri strip_prefix /api\n\
         reverse_proxy api:8000 {\n\
         header_up X-A b\n\
         lb_policy first\n\
         }\n\
         reverse_proxy other:8000\n\
         encode gzip\n\
         }\n\
         reverse_proxy web:3000 {\n\
         health_uri /ok\n\
         }\n\
         }",
    );
    assert_eq!(c.doc.routes.len(), 2);
    assert_eq!(c.doc.upstreams.len(), 2);
    for (line, directive) in [
        (4, "uri"),
        (6, "header_up"),
        (7, "lb_policy"),
        (9, "reverse_proxy"),
        (10, "encode"),
        (13, "health_uri"),
    ] {
        let told: Vec<_> = c.findings.iter().filter(|f| f.line == line).collect();
        assert_eq!(told.len(), 1, "on {directive} in line {line}");
        assert_eq!(told[0].status, Status::Unsupported);
        assert_eq!(told[0].directive, directive);
    }
    for line in [5, 12] {
        assert!(c
            .findings
            .iter()
            .any(|f| f.line == line && f.directive == "reverse_proxy" && f.status == Status::Convert));
    }
}

#[test]
fn tls_without_a_public_host_is_a_placeholder() {
    for (address, word) in [("localhost", "internal"), ("127.0.0.1", "ops@example.com")] {
        let src = format!("{address} {{\ntls {word}\nreverse_proxy app:80\n}}");
        let c = ok(&src);
        assert!(c.doc.acme.is_none());
        let told: Vec<_> = c.findings.iter().filter(|f| f.line == 2).collect();
        assert_eq!(told.len(), 1);
        assert_eq!(told[0].status, Status::Partial);
        assert_eq!(told[0].directive, "tls (ACME)");
        assert!(told[0].detail.contains("placeholder cert"));
    }
    let c = ok("localhost {\nreverse_proxy app:80\n}");
    assert!(c.findings.iter().all(|f| f.directive != "tls (ACME)"));
}

#[test]
fn options_of_a_tls_block_are_told() {
    let c = ok(
        "example.com {\n\
         tls ops@example.com {\n\
         protocols tls1.3\n\
         dns cloudflare\n\
         }\n\
         reverse_proxy app:80\n\
         }\n\
         other.com {\n\
         tls a.crt a.key {\n\
         protocols tls1.2\n\
         }\n\
         reverse_proxy app:80\n\
         }",
    );
    assert!(!c.doc.tls_min12);
    assert_eq!(c.doc.tls_cert, "a.crt");
    for (line, status, directive) in [
        (2, Status::Convert, "tls (ACME)"),
        (3, Status::Auto, "tls.protocols"),
        (4, Status::Unsupported, "tls.dns"),
        (9, Status::Convert, "tls <cert> <key>"),
        (10, Status::Unsupported, "tls.protocols"),
    ] {
        let told: Vec<_> = c.findings.iter().filter(|f| f.line == line).collect();
        assert_eq!(told.len(), 1, "in line {line}");
        assert_eq!(told[0].status, status);
        assert_eq!(told[0].directive, directive);
    }
}

use zion::import::command::{failure_text, included_files, source_refusal};
use zion::import::glob::wildcard_match;
use zion::import::includes::{Included, IncludedFile};
use zion::import::map::directives::map_body_size;
use zion::import::map::listen::split_listen;
use zion::import::map::location::split_proxy_pass;
use zion::import::map::servers::valid_bare_host;
use zion::import::map::units::{parse_size_mb, parse_time_ms, valid_cidr};
use zion::import::map::upstream::sanitize_name;
use zion::import::map::new_doc;
use zion::import::model::{extract, parse_rate, LocMod, NginxModel};
use zion::import::nginx::{parse, Directive};
use zion::import::report::{exit_code, report_text};
use zion::import::{convert, Conversion, ConvertError, Finding, Status};

// ── Reader ──────────────────────────────────────────────────────────────

fn one(src: &str) -> Directive {
    let mut v = parse(src).expect("parse");
    assert_eq!(v.len(), 1, "expected exactly one directive");
    v.remove(0)
}

#[test]
fn simple_directive() {
    let d = one("proxy_pass http://127.0.0.1:8080;");
    assert_eq!(d.name, "proxy_pass");
    assert_eq!(d.args, vec!["http://127.0.0.1:8080"]);
    assert!(d.block.is_none());
    assert_eq!(d.line, 1);
}

#[test]
fn block_directive_and_nesting() {
    let d = one("server {\n  listen 80;\n  location / {\n    proxy_pass http://b;\n  }\n}");
    assert_eq!(d.name, "server");
    let kids = d.block.expect("block");
    assert_eq!(kids.len(), 2);
    assert_eq!(kids[0].name, "listen");
    assert_eq!(kids[1].name, "location");
    assert_eq!(kids[1].args, vec!["/"]);
    assert_eq!(kids[1].line, 3);
    let inner = kids[1].block.as_ref().expect("location block");
    assert_eq!(inner[0].name, "proxy_pass");
}

#[test]
fn brace_adjacent_to_word() {
    let d = one("server{listen 80;}");
    assert_eq!(d.name, "server");
    assert_eq!(d.block.expect("block")[0].args, vec!["80"]);
}

#[test]
fn comments_only_at_token_start() {
    let v = parse("# full line\nroot /var/www#notcomment; # trailing\n").expect("parse");
    assert_eq!(v.len(), 1);
    assert_eq!(v[0].args, vec!["/var/www#notcomment"]);
}

#[test]
fn quoted_strings_with_escapes() {
    let d = one(r#"log_format main '$remote_addr "quoted \' arg"';"#);
    assert_eq!(d.args, vec!["main", r#"$remote_addr "quoted ' arg""#]);
    let d = one(r#"location ~ "^/user/(\d{4,8})$" { }"#);
    assert_eq!(d.args, vec!["~", r"^/user/(\d{4,8})$"]);
    assert!(d.block.is_some());
}

#[test]
fn dollar_vars_pass_through() {
    let d = one("proxy_set_header X-Forwarded-For $proxy_add_x_forwarded_for;");
    assert_eq!(d.args[1], "$proxy_add_x_forwarded_for");
}

#[test]
fn brace_form_variables_stay_in_the_word() {
    let d = one("return 301 https://example.com${request_uri};");
    assert_eq!(d.args, vec!["301", "https://example.com${request_uri}"]);
    let d = one("set $x a${b}c;");
    assert_eq!(d.args, vec!["$x", "a${b}c"]);
    let d = one("proxy_pass http://backend${suffix};");
    assert_eq!(d.args, vec!["http://backend${suffix}"]);
    assert!(parse("x a${b;").is_err());
}

#[test]
fn empty_block() {
    let d = one("events { }");
    assert_eq!(d.block.expect("block").len(), 0);
}

#[test]
fn unknown_directives_are_fine() {
    let v = parse("more_set_headers 'X-Custom: 1';\nbrotli on;\n").expect("parse");
    assert_eq!(v.len(), 2);
    assert_eq!(v[0].name, "more_set_headers");
    assert_eq!(v[1].name, "brotli");
}

#[test]
fn lua_block_with_braces_in_strings() {
    let src = "content_by_lua_block { local s = \"}\" -- also a } here\n ngx.say('{') } listen 80;";
    let v = parse(src).expect("parse");
    assert_eq!(v.len(), 2);
    assert_eq!(v[0].name, "content_by_lua_block");
    assert_eq!(v[0].block.as_ref().expect("raw block").len(), 0);
    assert_eq!(v[1].name, "listen");
}

#[test]
fn error_unterminated_quote() {
    let e = parse("server_name \"unterminated;").expect_err("must fail");
    assert!(e.msg.contains("unterminated"), "{}", e.to_text());
}

#[test]
fn error_unbalanced_braces() {
    assert!(parse("server { listen 80;").is_err());
    assert!(parse("}").is_err());
    let e = parse("server { listen 80; } }").expect_err("must fail");
    assert!(e.msg.contains("unexpected `}`"), "{}", e.to_text());
}

#[test]
fn error_missing_semicolon() {
    let e = parse("server { listen 80 }").expect_err("must fail");
    assert!(e.msg.contains("missing `;`"), "{}", e.to_text());
}

#[test]
fn error_stray_semicolon() {
    assert!(parse(";").is_err());
}

#[test]
fn line_numbers_track_newlines() {
    let v = parse("\n\nlisten 80;\nserver_name a;\n").expect("parse");
    assert_eq!(v[0].line, 3);
    assert_eq!(v[1].line, 4);
}

#[test]
fn nginx_crlf_input() {
    let v = parse("listen 80;\r\nserver_name a.example.com;\r\n").expect("parse");
    assert_eq!(v.len(), 2);
    assert_eq!(v[1].line, 2);
}

#[test]
fn a_plain_directive_round_trips() {
    for (name, args) in [
        ("listen", vec!["80"]),
        ("a", vec![]),
        ("x_y", vec!["a.b/c:d", "$e-f", "0"]),
    ] {
        let v = parse(&format!("{} {};", name, args.join(" "))).expect("parse");
        assert_eq!(v.len(), 1);
        assert_eq!(v[0].name, name);
        assert_eq!(v[0].args, args);
    }
}

#[test]
fn parser_survives_odd_input() {
    for src in ["", "{", "}", "\"", "'", "\\", "a{b{c{", "# only", "a;b", "$", "${", "*_;{}"] {
        let _ = parse(src);
    }
}

#[test]
fn parse_error_names_its_line() {
    let e = parse("listen 80;\n}").expect_err("must fail");
    assert_eq!(e.line, 2);
    assert!(e.to_text().starts_with("line 2: "), "{}", e.to_text());
}

// ── Model ───────────────────────────────────────────────────────────────

fn model_of(src: &str) -> (NginxModel, Vec<Finding>) {
    let ast = parse(src).expect("parse");
    let mut findings = Vec::new();
    let model = extract(ast, &mut findings);
    (model, findings)
}

#[test]
fn server_inside_and_outside_http_block() {
    let (m, _) = model_of("http { server { listen 80; } }\nserver { listen 81; }");
    assert_eq!(m.servers.len(), 2);
}

#[test]
fn listen_flags_parsed() {
    let (m, _) = model_of("server { listen 443 ssl http2 default_server; }");
    let l = &m.servers[0].listens[0];
    assert_eq!(l.addr, "443");
    assert!(l.ssl);
    assert!(l.default_server);
    assert_eq!(l.flags, vec!["http2"]);
}

#[test]
fn location_modifiers() {
    let (m, _) =
        model_of("server { location / {} location = /x {} location ~ ^/r$ {} location ^~ /p {} }");
    let locs = &m.servers[0].locations;
    assert_eq!(locs[0].modifier, LocMod::Prefix);
    assert_eq!(locs[1].modifier, LocMod::Exact);
    assert_eq!(locs[1].pattern, "/x");
    assert_eq!(locs[2].modifier, LocMod::Regex);
    assert_eq!(locs[3].modifier, LocMod::PrefixPriority);
}

#[test]
fn upstream_pool_extraction() {
    let (m, _) = model_of(
        "upstream be { least_conn; server 10.0.0.1:80 weight=3; server 10.0.0.2:80; keepalive 16; }",
    );
    let p = &m.pools[0];
    assert_eq!(p.name, "be");
    assert_eq!(p.servers.len(), 2);
    assert_eq!(p.servers[0].flags, vec!["weight=3"]);
    assert_eq!(p.keepalive, Some(16));
    assert_eq!(p.extras[0].name, "least_conn");
}

#[test]
fn zones_parsed() {
    let (m, _) = model_of(
        "limit_req_zone $binary_remote_addr zone=api:10m rate=20r/s;\n\
         limit_conn_zone $binary_remote_addr zone=peraddr:10m;",
    );
    assert_eq!(m.req_zones[0].name, "api");
    assert_eq!(m.req_zones[0].rps, 20);
    assert_eq!(m.req_zones[0].window_secs, 1);
    assert_eq!(m.req_zones[0].key, "$binary_remote_addr");
    assert_eq!(m.conn_zones[0].name, "peraddr");
}

#[test]
fn rate_per_minute() {
    assert_eq!(parse_rate("30r/m"), Some((30, 60)));
    assert_eq!(parse_rate("10r/s"), Some((10, 1)));
    assert_eq!(parse_rate("bogus"), None);
}

#[test]
fn unknown_top_level_directive_gets_finding() {
    let (_, findings) = model_of("stream { }");
    assert!(findings
        .iter()
        .any(|f| f.status == Status::Unsupported && f.directive == "stream"));
}

#[test]
fn nested_location_flagged() {
    let (m, findings) = model_of("server { location / { location /x { } } }");
    assert_eq!(m.servers[0].locations.len(), 1);
    assert!(findings.iter().any(|f| f.detail.contains("nested")));
}

// ── Mapping ─────────────────────────────────────────────────────────────

#[test]
fn size_parsing() {
    assert_eq!(parse_size_mb("64m"), Some(64));
    assert_eq!(parse_size_mb("1g"), Some(1024));
    assert_eq!(parse_size_mb("512k"), Some(1));
    assert_eq!(parse_size_mb("100"), Some(1));
    assert_eq!(parse_size_mb("0"), Some(0));
    assert_eq!(parse_size_mb("abc"), None);
}

#[test]
fn time_parsing() {
    assert_eq!(parse_time_ms("75s"), Some(75_000));
    assert_eq!(parse_time_ms("500ms"), Some(500));
    assert_eq!(parse_time_ms("2m"), Some(120_000));
    assert_eq!(parse_time_ms("30"), Some(30_000));
    assert_eq!(parse_time_ms("1m30s"), None);
}

#[test]
fn sizes_and_times_at_the_edge() {
    assert_eq!(parse_size_mb("1M"), Some(1));
    assert_eq!(parse_size_mb("18446744073709551615g"), None);
    assert_eq!(parse_time_ms("18446744073709551615s"), None);
    assert_eq!(parse_time_ms("1h"), Some(3_600_000));
    assert!(valid_cidr("10.0.0.0/8"));
    assert!(valid_cidr("2400:cb00::/32"));
    assert!(!valid_cidr("10.0.0.0/33"));
    assert!(!valid_cidr("10.0.0/8"));
}

#[test]
fn proxy_pass_splitting() {
    assert_eq!(
        split_proxy_pass("http://localhost:3000"),
        Some(("http".into(), "localhost:3000".into(), None))
    );
    assert_eq!(
        split_proxy_pass("https://10.0.3.10:8443"),
        Some(("https".into(), "10.0.3.10:8443".into(), None))
    );
    assert_eq!(
        split_proxy_pass("http://b/"),
        Some(("http".into(), "b".into(), Some("/".into())))
    );
    assert_eq!(
        split_proxy_pass("http://b/prefix/x"),
        Some(("http".into(), "b".into(), Some("/prefix/x".into())))
    );
    assert_eq!(split_proxy_pass("ftp://b"), None);
    assert_eq!(split_proxy_pass("http://"), None);
}

#[test]
fn listen_splitting() {
    assert_eq!(split_listen("80", false), Some((None, 80)));
    assert_eq!(
        split_listen("1.2.3.4:8080", false),
        Some((Some("1.2.3.4".into()), 8080))
    );
    assert_eq!(
        split_listen("[::]:443", true),
        Some((Some("[::]".into()), 443))
    );
    assert_eq!(
        split_listen("1.2.3.4", true),
        Some((Some("1.2.3.4".into()), 443))
    );
    assert_eq!(split_listen("unix:/run/x.sock", false), None);
}

#[test]
fn name_sanitizing() {
    assert_eq!(sanitize_name("users-svc:8001"), "users-svc_8001");
    assert_eq!(sanitize_name("127.0.0.1:80"), "127_0_0_1_80");
    assert_eq!(sanitize_name("backend_pool"), "backend_pool");
}

#[test]
fn bare_host_validation() {
    assert!(valid_bare_host("example.com"));
    assert!(valid_bare_host("a-b.example.co.uk"));
    assert!(!valid_bare_host("Example.com"));
    assert!(!valid_bare_host("exa mple.com"));
    assert!(!valid_bare_host(""));
    assert!(!valid_bare_host(".example.com"));
    assert!(!valid_bare_host("example..com"));
}

// ── Conversion ──────────────────────────────────────────────────────────

fn converted(src: &str) -> Conversion {
    match convert(src, None, &Vec::new()) {
        Ok(c) => c,
        Err(ConvertError::Parse(e)) => panic!("parse error: {e}"),
        Err(ConvertError::NoRoutes(f)) => panic!("no routes:\n{}", report_text(&f, true)),
        Err(ConvertError::Lookup { pattern, .. }) => panic!("lookup of {pattern}"),
    }
}

fn has_finding(c: &Conversion, status: Status, directive: &str, needle: &str) -> bool {
    c.findings
        .iter()
        .any(|f| f.status == status && f.directive == directive && f.detail.contains(needle))
}

#[test]
fn wildcard_matcher() {
    assert!(wildcard_match("*.conf", "site.conf"));
    assert!(wildcard_match("*", "anything"));
    assert!(wildcard_match("a*b*.conf", "aXbY.conf"));
    assert!(!wildcard_match("*.conf", "site.confx"));
    assert!(!wildcard_match("a*.conf", "b.conf"));
}

#[test]
fn no_routes_is_an_error_with_findings() {
    match convert("server { listen 80; }", None, &Vec::new()) {
        Err(ConvertError::NoRoutes(_)) => {}
        _ => panic!("expected NoRoutes"),
    }
}

#[test]
fn parse_error_surfaces() {
    match convert("server { listen 80", None, &Vec::new()) {
        Err(ConvertError::Parse(e)) => assert!(e.contains("line"), "{e}"),
        _ => panic!("expected Parse error"),
    }
}

/// Looks the wanted files up in a list of (path, content), in order, until the
/// conversion comes to an end.
fn convert_with(src: &str, base: &str, files: &[(&str, &str)]) -> Conversion {
    let mut table: Vec<Included> = Vec::new();
    loop {
        match convert(src, Some(base), &table) {
            Ok(c) => return c,
            Err(ConvertError::Lookup { base, pattern }) => {
                let full = if pattern.starts_with('/') {
                    pattern.clone()
                } else {
                    format!("{base}/{pattern}")
                };
                let found = files
                    .iter()
                    .filter(|(path, _)| wildcard_match(&full, path))
                    .map(|(path, content)| IncludedFile {
                        path: path.to_string(),
                        dir: path.rsplit_once('/').unwrap().0.to_string(),
                        source: Ok(content.to_string()),
                    })
                    .collect();
                table.push(Included {
                    base,
                    pattern,
                    files: found,
                });
            }
            Err(ConvertError::Parse(e)) => panic!("parse error: {e}"),
            Err(ConvertError::NoRoutes(f)) => panic!("no routes:\n{}", report_text(&f, true)),
        }
    }
}

#[test]
fn include_resolution_and_wildcards() {
    let c = convert_with(
        "include conf.d/*.conf;",
        "/etc/nginx",
        &[
            (
                "/etc/nginx/conf.d/a.conf",
                "server { listen 80; location / { proxy_pass http://127.0.0.1:9001; } }",
            ),
            (
                "/etc/nginx/conf.d/b.conf",
                "server { listen 80; server_name b.example.com; location = /b { proxy_pass http://127.0.0.1:9002; } }",
            ),
            ("/etc/nginx/conf.d/notes.txt", "not nginx"),
        ],
    );
    let urls: Vec<&String> = c.doc.upstreams.iter().flat_map(|u| &u.urls).collect();
    assert!(urls.iter().any(|u| *u == "http://127.0.0.1:9001"));
    assert!(urls.iter().any(|u| *u == "http://127.0.0.1:9002"));
}

#[test]
fn unresolved_include_is_a_finding_not_an_abort() {
    let c = convert_with(
        "include /nonexistent/mime.types;\nserver { listen 80; location / { proxy_pass http://127.0.0.1:9001; } }",
        "/",
        &[],
    );
    assert!(has_finding(
        &c,
        Status::Unsupported,
        "include",
        "review manually"
    ));
}

#[test]
fn a_file_that_cannot_be_read_is_an_error() {
    let table = vec![Included {
        base: "/etc/nginx".to_string(),
        pattern: "a.conf".to_string(),
        files: vec![IncludedFile {
            path: "/etc/nginx/a.conf".to_string(),
            dir: "/etc/nginx".to_string(),
            source: Err("permission denied".to_string()),
        }],
    }];
    match convert("include a.conf;", Some("/etc/nginx"), &table) {
        Err(ConvertError::Parse(e)) => assert!(e.contains("permission denied"), "{e}"),
        _ => panic!("expected Parse error"),
    }
}

#[test]
fn proxied_vhost_converts() {
    let c = converted(
        "server {\n  listen 80;\n  server_name app.example.com;\n  location / {\n    proxy_pass http://localhost:3000;\n    proxy_http_version 1.1;\n    proxy_set_header Upgrade $http_upgrade;\n    proxy_set_header Connection \"upgrade\";\n    proxy_set_header Host $host;\n    proxy_set_header X-Real-IP $remote_addr;\n  }\n}",
    );
    assert_eq!(c.doc.routes.len(), 1);
    let r = &c.doc.routes[0];
    assert_eq!(r.hosts, Some(vec!["app.example.com".to_string()]));
    assert!(r.websocket);
    assert_eq!(c.doc.upstreams[0].urls, vec!["http://localhost:3000"]);
    assert!(has_finding(&c, Status::Unsupported, "proxy_set_header", "Host"));
    assert!(has_finding(&c, Status::Auto, "proxy_set_header", "X-Real-IP"));
    assert_eq!(c.doc.tls_cert, "/etc/ssl/zion/zion.crt");
    assert!(has_finding(&c, Status::Partial, "server", "plain-HTTP"));
}

#[test]
fn body_cap_and_timeouts_convert() {
    let c = converted(
        "server {\n listen 80;\n server_name Blog.example.com www.blog.example.com;\n client_max_body_size 64m;\n location / {\n  proxy_pass http://127.0.0.1:8080;\n  proxy_connect_timeout 75s;\n  proxy_read_timeout 300s;\n  proxy_buffering off;\n }\n location ~ /\\. { deny all; }\n}",
    );
    assert_eq!(c.doc.waf_body_mb, Some(64));
    assert!(c.doc.routes[0].waf);
    assert_eq!(c.doc.upstreams[0].connect_timeout_ms, Some(75_000));
    assert_eq!(
        c.doc.routes[0].hosts,
        Some(vec![
            "blog.example.com".to_string(),
            "www.blog.example.com".to_string()
        ])
    );
    assert!(has_finding(&c, Status::Unsupported, "proxy_read_timeout", "connect"));
    assert!(has_finding(&c, Status::Unsupported, "proxy_buffering", "sse_stream"));
    assert!(has_finding(&c, Status::Unsupported, "location", "regex"));
}

#[test]
fn gateway_routes_and_global_rate_convert() {
    let c = converted(
        "limit_req_zone $binary_remote_addr zone=api:10m rate=20r/s;\nserver {\n listen 80;\n server_name api.example.com;\n location = /healthz { proxy_pass http://users-svc:8001; }\n location /v1/users/ { limit_req zone=api burst=40; proxy_pass http://users-svc:8001; }\n location /v1/ { proxy_pass http://orders-svc:8002; add_header X-Gateway zion; }\n}",
    );
    let paths: Vec<&str> = c.doc.routes.iter().map(|r| r.path.as_str()).collect();
    assert!(paths.contains(&"/healthz"));
    assert!(paths.contains(&"/v1/users/{*rest}"));
    assert!(paths.contains(&"/v1/{*rest}"));
    assert_eq!(c.doc.rate_limit, Some((20, 1)));
    assert!(has_finding(&c, Status::Partial, "limit_req", "GLOBALLY"));
    assert!(has_finding(&c, Status::Unsupported, "add_header", "X-Gateway"));
}

#[test]
fn catch_all_vhost_is_hostless() {
    let c = converted(
        "server { listen 80; server_name alpha.example.com; location / { proxy_pass http://a:1; } }\nserver { listen 80; server_name beta.example.com; location / { proxy_pass http://b:1; } }\nserver { listen 80 default_server; server_name _; location / { proxy_pass http://c:1; } }",
    );
    assert_eq!(c.doc.routes.len(), 3);
    assert_eq!(c.doc.routes[0].hosts, Some(vec!["alpha.example.com".to_string()]));
    assert_eq!(c.doc.routes[1].hosts, Some(vec!["beta.example.com".to_string()]));
    assert_eq!(c.doc.routes[2].hosts, None);
}

#[test]
fn pool_converts_with_its_deltas() {
    let c = converted(
        "upstream backend_pool {\n least_conn;\n server 10.0.2.11:8080 weight=3;\n server 10.0.2.12:8080;\n server 10.0.2.13:8080 backup;\n keepalive 32;\n}\nserver { listen 80; server_name lb.example.com; location / { proxy_pass http://backend_pool; } }",
    );
    let u = &c.doc.upstreams[0];
    assert_eq!(u.name, "backend_pool");
    assert_eq!(
        u.urls,
        vec![
            "http://10.0.2.11:8080",
            "http://10.0.2.12:8080",
            "http://10.0.2.13:8080"
        ]
    );
    assert_eq!(u.keepalive, Some(32));
    assert!(has_finding(&c, Status::Unsupported, "least_conn", "load balancing"));
    assert!(has_finding(&c, Status::Unsupported, "server", "weight=3"));
    assert!(has_finding(&c, Status::Unsupported, "server", "backup"));
}

#[test]
fn tls_vhost_converts() {
    let c = converted(
        "server { listen 80; server_name secure.example.com; return 301 https://$host$request_uri; }\nserver {\n listen 443 ssl;\n server_name secure.example.com;\n ssl_certificate /etc/live/fullchain.pem;\n ssl_certificate_key /etc/live/privkey.pem;\n ssl_protocols TLSv1.2 TLSv1.3;\n ssl_ciphers HIGH;\n add_header Strict-Transport-Security \"max-age=1\";\n location / { proxy_pass https://10.0.3.10:8443; proxy_ssl_verify off; }\n}",
    );
    assert_eq!(c.doc.tls_cert, "/etc/live/fullchain.pem");
    assert_eq!(c.doc.tls_key, "/etc/live/privkey.pem");
    assert!(c.doc.tls_min12);
    assert_eq!(c.doc.upstreams[0].urls, vec!["https://10.0.3.10:8443"]);
    assert!(has_finding(&c, Status::Auto, "server", "redirect"));
    assert!(has_finding(&c, Status::Unsupported, "ssl_ciphers", "rustls"));
    assert!(has_finding(&c, Status::Unsupported, "proxy_ssl_verify", ""));
    assert!(has_finding(&c, Status::Auto, "add_header", "Strict-Transport-Security"));
}

#[test]
fn wildcard_certificate_is_the_default() {
    let c = converted(
        "server { listen 443 ssl; server_name tenants.example.com; ssl_certificate /etc/ssl/one.crt; ssl_certificate_key /etc/ssl/one.key; location / { proxy_pass http://a:1; } }\nserver { listen 443 ssl; server_name *.tenants.example.com; ssl_certificate /etc/ssl/wild.crt; ssl_certificate_key /etc/ssl/wild.key; location / { proxy_pass http://b:1; } }",
    );
    assert_eq!(c.doc.tls_cert, "/etc/ssl/wild.crt");
    assert_eq!(c.doc.sni.len(), 1);
    assert_eq!(c.doc.sni[0].server_name, "tenants.example.com");
    assert_eq!(c.doc.sni[0].cert, "/etc/ssl/one.crt");
    assert!(has_finding(&c, Status::Convert, "ssl_certificate", "default"));
}

#[test]
fn origin_behind_a_cdn_converts() {
    let c = converted(
        "limit_conn_zone $binary_remote_addr zone=addr:10m;\nserver {\n listen 80;\n server_name o.example.com;\n set_real_ip_from 173.245.48.0/20;\n set_real_ip_from 2400:cb00::/32;\n real_ip_header CF-Connecting-IP;\n gzip on;\n limit_conn addr 20;\n location / { proxy_pass http://a:1; }\n}",
    );
    assert_eq!(
        c.doc.trusted_proxies,
        vec!["173.245.48.0/20", "2400:cb00::/32"]
    );
    assert_eq!(c.doc.max_conn_per_ip, Some(20));
    assert!(has_finding(&c, Status::Unsupported, "real_ip_header", "CF-Connecting-IP"));
    assert!(has_finding(&c, Status::Unsupported, "gzip", ""));
}

#[test]
fn odd_directives_are_loud() {
    let c = converted(
        "map $a $b { default x; }\nserver {\n listen 80;\n server_name g.example.com;\n if ($x) { return 403; }\n rewrite ^/a /b;\n auth_basic closed;\n location ~ \\.php$ { proxy_pass http://p:1; }\n location /v/ { proxy_pass http://$target; }\n location /okay/ { proxy_pass http://ok:1; }\n}",
    );
    assert_eq!(c.doc.routes.len(), 1);
    assert_eq!(c.doc.routes[0].path, "/okay/{*rest}");
    assert!(has_finding(&c, Status::Unsupported, "map", ""));
    assert!(has_finding(&c, Status::Unsupported, "if", ""));
    assert!(has_finding(&c, Status::Unsupported, "rewrite", ""));
    assert!(has_finding(&c, Status::Unsupported, "location", "regex"));
    assert!(has_finding(&c, Status::Unsupported, "proxy_pass", "variable"));
    assert!(has_finding(&c, Status::Unsupported, "auth_basic", "JWT"));
}

#[test]
fn uri_part_of_a_target_is_dropped_loudly() {
    let c = converted(
        "server { listen 80; server_name s.example.com; location /api/ { proxy_pass http://b:1/v2/; } }",
    );
    assert_eq!(c.doc.routes[0].path, "/api/{*rest}");
    assert!(has_finding(&c, Status::Unsupported, "proxy_pass", "URI part"));
    assert!(c.doc.routes[0]
        .annotations
        .iter()
        .any(|a| a.contains("proxy_pass URI part")));
}

#[test]
fn no_two_routes_share_path_and_host() {
    let c = converted(
        "server { listen 80; server_name d.example.com; location / { proxy_pass http://a:1; } location = / { proxy_pass http://b:1; } location /x { proxy_pass http://a:1; } location ^~ /x { proxy_pass http://b:1; } }",
    );
    for (i, a) in c.doc.routes.iter().enumerate() {
        for b in &c.doc.routes[i + 1..] {
            assert!(a.path != b.path || a.hosts != b.hosts);
        }
    }
}

#[test]
fn findings_come_in_line_order() {
    let c = converted(
        "server {\n listen 80;\n server_name l.example.com;\n gzip on;\n location / { proxy_pass http://a:1; }\n}\nstream { }",
    );
    for w in c.findings.windows(2) {
        assert!(w[0].line <= w[1].line);
    }
}

#[test]
fn exit_codes_follow_the_findings() {
    let clean: Vec<Finding> = Vec::new();
    assert_eq!(exit_code(&clean, true), 0);
    let c = converted(
        "server { listen 80; server_name e.example.com; gzip on; location / { proxy_pass http://a:1; } }",
    );
    assert_eq!(exit_code(&c.findings, false), 0);
    assert_ne!(exit_code(&c.findings, true), 0);
}

#[test]
fn every_directive_is_told() {
    let src = "worker_processes 4;\n\
        http {\n\
        upstream pool {\n\
        server 10.0.0.1:80;\n\
        ip_hash;\n\
        }\n\
        server {\n\
        listen 80;\n\
        server_name a.test;\n\
        ssl_protocols TLSv1.2;\n\
        gzip on;\n\
        location /x {\n\
        proxy_pass http://pool;\n\
        sub_filter a b;\n\
        location /y {\n\
        return 204;\n\
        }\n\
        }\n\
        location ~ \\.php$ {\n\
        fastcgi_pass f;\n\
        }\n\
        location frob /z {\n\
        }\n\
        }\n\
        }\n";
    let c = converted(src);
    for (line, directive) in [
        (1, "worker_processes"),
        (5, "ip_hash"),
        (8, "listen"),
        (10, "ssl_protocols"),
        (11, "gzip"),
        (12, "location"),
        (13, "proxy_pass"),
        (14, "sub_filter"),
        (15, "location"),
        (19, "location"),
        (22, "location"),
    ] {
        assert!(
            c.findings.iter().any(|f| f.line == line && f.directive == directive),
            "nothing on {directive} in line {line}"
        );
    }
}

#[test]
fn a_redirect_only_server_is_told() {
    let src = "server {\nlisten 80;\nserver_name a.test;\nreturn 301 https://$host$request_uri;\n}\n\
        server {\nlisten 81;\nserver_name b.test;\nlocation / {\nproxy_pass http://10.0.0.1:80;\n}\n}\n";
    let c = converted(src);
    assert!(c.findings.iter().any(|f| f.line == 1 && f.directive == "server"));
    assert_eq!(c.doc.routes.len(), 1);
}

#[test]
fn included_files_come_sorted() {
    let names = vec!["b.conf", "a.conf", "notes.txt", "B.conf", "a.conf.bak"];
    let got = included_files("*.conf", names.iter().map(|n| n.to_string()).collect());
    assert_eq!(got, vec!["B.conf", "a.conf", "b.conf"]);
}

#[test]
fn the_command_refuses_other_sources() {
    assert_eq!(source_refusal("nginx"), None);
    assert!(source_refusal("").unwrap().starts_with("usage: zion import nginx"));
    assert_eq!(
        source_refusal("apache").unwrap(),
        "zion import: unsupported source 'apache' (supported: nginx)"
    );
}

#[test]
fn failures_name_the_input() {
    let e = convert("server {", None, &vec![]).err().expect("must fail");
    assert!(failure_text("a.conf", &e).starts_with("zion import: a.conf: line "));
    let e = convert("worker_processes 1;", None, &vec![]).err().expect("must fail");
    let text = failure_text("a.conf", &e);
    assert!(text.contains("worker_processes"));
    assert!(text.ends_with("zion import: no convertible routes — nothing emitted\n"));
}

#[test]
fn a_converted_document_is_sound() {
    let src = "upstream live { server 10.0.0.1:80; }\n\
        upstream dead { server 10.0.0.2:80 down; }\n\
        server {\nlisten 80;\nserver_name a.test *.b.test;\nset_real_ip_from 10.0.0.0/8;\nset_real_ip_from nonsense;\n\
        location / { proxy_pass http://live; }\n\
        location /d/ { proxy_pass http://dead; }\n\
        location /t/ { proxy_pass http://10.0.0.3:81; }\n}\n";
    let c = converted(src);
    assert_eq!(c.doc.trusted_proxies, vec!["10.0.0.0/8"]);
    let names: Vec<&str> = c.doc.upstreams.iter().map(|u| u.name.as_str()).collect();
    for r in &c.doc.routes {
        assert_eq!(r.hosts.clone().unwrap(), vec!["a.test", "*.b.test"]);
        assert!(names.contains(&r.upstream.as_str()) || r.upstream == "dead");
    }
    assert_eq!(c.doc.routes.len(), 3);
    assert!(has_finding(&c, Status::Unsupported, "upstream", "no usable members"));
}

#[test]
fn a_server_without_a_usable_name_takes_nothing() {
    let src = "server {\nlisten 80;\nserver_name ~^a;\nlocation / { proxy_pass http://10.0.0.1:80; }\n}\n\
        server {\nlisten 80;\nserver_name _;\nlocation /x/ { proxy_pass http://10.0.0.1:80; }\n}\n";
    let c = converted(src);
    assert_eq!(c.doc.routes.len(), 1);
    assert_eq!(c.doc.routes[0].hosts, None);
    assert!(has_finding(&c, Status::Unsupported, "server", "every server_name was unconvertible"));
}

#[test]
fn a_body_cap_without_a_size_is_told() {
    let d = Directive {
        name: "client_max_body_size".to_string(),
        args: Vec::new(),
        block: None,
        line: 7,
    };
    let mut doc = new_doc();
    let mut waf = false;
    let mut findings: Vec<Finding> = Vec::new();
    map_body_size(&d, &mut doc.waf_body_mb, &mut waf, &mut findings);
    assert_eq!(findings.len(), 1);
    assert_eq!(findings[0].line, 7);
    assert_eq!(findings[0].directive, "client_max_body_size");
    assert_eq!(findings[0].status, Status::Unsupported);
    assert_eq!(findings[0].detail, "missing size");
    assert_eq!(doc.waf_body_mb, None);
    assert!(!waf);
}

#[test]
fn a_prefix_of_slashes_is_a_catch_all() {
    let c = converted(
        "server {\nlisten 80;\nserver_name a.test;\nlocation // {\nproxy_pass http://a:1;\n}\n}",
    );
    assert_eq!(c.doc.routes.len(), 1);
    assert_eq!(c.doc.routes[0].path, "/{*rest}");
    let told: Vec<&Finding> = c.findings.iter().filter(|f| f.line == 4).collect();
    assert_eq!(told.len(), 1);
    assert_eq!(told[0].status, Status::Convert);
    assert_eq!(told[0].directive, "location");
    assert_eq!(told[0].detail, "catch-all route '/{*rest}'");
}

#[test]
fn every_certificate_pair_is_told() {
    let pair = |cert: &str, host: &str| {
        format!(
            "server {{\nlisten 443 ssl;\n{host}\nssl_certificate {cert}.crt;\nssl_certificate_key {cert}.key;\nlocation /{cert} {{ proxy_pass http://a:1; }}\n}}\n"
        )
    };
    let src = pair("one", "") + &pair("two", "") + &pair("one", "");
    let c = converted(&src);
    assert_eq!(c.doc.tls_cert, "one.crt");
    assert!(c.doc.sni.is_empty());
    let on = |line: u32| -> Vec<&Finding> {
        c.findings
            .iter()
            .filter(|f| f.line == line && f.directive == "ssl_certificate")
            .collect()
    };
    assert_eq!(on(4).len(), 1);
    assert_eq!(on(4)[0].status, Status::Convert);
    assert_eq!(on(11).len(), 1);
    assert_eq!(on(11)[0].status, Status::Unsupported);
    assert!(on(11)[0].detail.starts_with("a second certificate pair without host names"));
    assert_eq!(on(18).len(), 1);
    assert_eq!(on(18)[0].status, Status::Convert);
    assert!(on(18)[0].detail.starts_with("served by the default certificate"));
}

#[test]
fn a_half_pair_without_a_file_is_told() {
    let c = converted(
        "server {\nlisten 443 ssl;\nssl_certificate;\nssl_certificate_key;\nlocation / { proxy_pass http://a:1; }\n}",
    );
    for (line, directive) in [(3, "ssl_certificate"), (4, "ssl_certificate_key")] {
        let told: Vec<&Finding> = c.findings.iter().filter(|f| f.line == line).collect();
        assert_eq!(told.len(), 1);
        assert_eq!(told[0].status, Status::Unsupported);
        assert_eq!(told[0].directive, directive);
        assert_eq!(told[0].detail, "missing file");
    }
}

#[test]
fn the_target_of_a_route_is_told_on_its_line() {
    let c = converted(
        "server {\nlisten 80;\nlocation /a {\nproxy_pass http://a:1;\n}\nlocation /a {\nproxy_pass http://b:1;\n}\n}",
    );
    assert_eq!(c.doc.routes.len(), 1);
    let told: Vec<&Finding> = c
        .findings
        .iter()
        .filter(|f| f.directive == "proxy_pass")
        .collect();
    assert_eq!(told.len(), 1);
    assert_eq!(told[0].line, 4);
    assert_eq!(told[0].status, Status::Convert);
    assert!(c
        .findings
        .iter()
        .any(|f| f.line == 6 && f.directive == "location" && f.status != Status::Convert));
}

#[test]
fn files_of_a_proxied_location_are_told() {
    let c = converted(
        "server {\nlisten 80;\nlocation /a {\nroot /srv;\nindex a.html;\nproxy_pass http://a:1;\nautoindex on;\n}\n}",
    );
    assert_eq!(c.doc.routes.len(), 1);
    assert!(c.doc.routes[0].serve_dir.is_none());
    for (line, directive) in [(4, "root"), (5, "index"), (7, "autoindex")] {
        let told: Vec<&Finding> = c.findings.iter().filter(|f| f.line == line).collect();
        assert_eq!(told.len(), 1);
        assert_eq!(told[0].status, Status::Unsupported);
        assert_eq!(told[0].directive, directive);
    }
}

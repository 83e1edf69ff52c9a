use zion::import::env::{interpolate, Env, Var};
use zion::import::traefik::{convert, parse_rule, to_zion_path};
use zion::import::{Conversion, ConvertError, Status};

fn env(pairs: &[(&str, &str)]) -> Env {
    Env {
        vars: pairs
            .iter()
            .map(|(k, v)| Var {
                key: k.to_string(),
                value: v.to_string(),
            })
            .collect(),
    }
}

fn convert_str(src: &str, vars: &[(&str, &str)]) -> Result<Conversion, ConvertError> {
    let cli: Vec<(String, String)> = vars
        .iter()
        .map(|(k, v)| (k.to_string(), v.to_string()))
        .collect();
    convert(src, None, &cli)
}

fn upstream_url(c: &Conversion, name: &str) -> String {
    let u = c.doc.upstreams.iter().find(|u| u.name == name);
    u.unwrap_or_else(|| panic!("no upstream {name}")).urls[0].clone()
}

#[test]
fn expand_plain_default_and_required() {
    let e = env(&[("SET", "v")]);
    assert_eq!(e.expand("SET"), Some("v".to_string()));
    assert_eq!(e.expand("UNSET"), None);
    assert_eq!(e.expand("UNSET:-fallback"), Some("fallback".to_string()));
    assert_eq!(e.expand("SET:-fallback"), Some("v".to_string()));
    assert_eq!(e.expand("UNSET:?must be set"), None);
    assert_eq!(e.expand("UNSET-bare"), Some("bare".to_string()));
}

#[test]
fn interpolate_reports_unresolved_with_name_and_line() {
    let e = env(&[]);
    let mut f = Vec::new();
    assert_eq!(
        interpolate("a.${MISSING}.b", &e, 42, "rule: Host", &mut f),
        None
    );
    assert_eq!(f.len(), 1);
    assert_eq!(f[0].status, Status::Unsupported);
    assert_eq!(f[0].line, 42);
    assert!(f[0].detail.contains("--var MISSING="));
}

#[test]
fn interpolate_embeds_resolved_value() {
    let e = env(&[("DOMAIN", "example.com")]);
    let mut f = Vec::new();
    assert_eq!(
        interpolate("api.${DOMAIN}", &e, 1, "x", &mut f),
        Some("api.example.com".to_string())
    );
    assert!(f.is_empty());
}

fn hosts_of(rule: &str, e: &Env) -> Option<Vec<String>> {
    let mut f = Vec::new();
    parse_rule(rule, 1, e, &mut f).map(|p| p.hosts)
}

#[test]
fn host_or_host_collects_both() {
    let got = hosts_of("Host(`a.io`) || Host(`b.io`)", &env(&[]));
    assert_eq!(got, Some(vec!["a.io".to_string(), "b.io".to_string()]));
}

#[test]
fn host_and_pathprefix_splits_host_from_path() {
    let mut f = Vec::new();
    let p = parse_rule("Host(`a.io`) && PathPrefix(`/api`)", 1, &env(&[]), &mut f).unwrap();
    assert_eq!(p.hosts, vec!["a.io".to_string()]);
    assert_eq!(to_zion_path(&p.path), "/api/{*rest}");
}

#[test]
fn pathprefix_alone_has_no_host() {
    let mut f = Vec::new();
    let p = parse_rule("PathPrefix(`/api`)", 1, &env(&[]), &mut f).unwrap();
    assert!(p.hosts.is_empty());
    assert_eq!(to_zion_path(&p.path), "/api/{*rest}");
}

#[test]
fn path_is_exact() {
    let mut f = Vec::new();
    let p = parse_rule("Path(`/health`)", 1, &env(&[]), &mut f).unwrap();
    assert_eq!(to_zion_path(&p.path), "/health");
}

#[test]
fn unsupported_matcher_drops_the_route() {
    let mut f = Vec::new();
    assert!(parse_rule("Host(`a`) && Query(`x=1`)", 7, &env(&[]), &mut f).is_none());
    assert!(f
        .iter()
        .any(|x| x.status == Status::Unsupported && x.line == 7));
}

#[test]
fn acme_challenge_router_is_flagged() {
    let mut f = Vec::new();
    let p = parse_rule(
        "Host(`a.io`) && PathPrefix(`/.well-known/acme-challenge`)",
        1,
        &env(&[]),
        &mut f,
    )
    .unwrap();
    assert!(p.acme_challenge);
}

#[test]
fn host_variable_resolves_from_var() {
    let got = hosts_of("Host(`${DOMAIN:-localhost}`)", &env(&[]));
    assert_eq!(got, Some(vec!["localhost".to_string()]));
    let got = hosts_of(
        "Host(`${DOMAIN:-localhost}`)",
        &env(&[("DOMAIN", "prod.io")]),
    );
    assert_eq!(got, Some(vec!["prod.io".to_string()]));
}

const HTTP_ONLY: &str = r#"
services:
  traefik:
    image: traefik:v3.3
    command:
      - "--providers.docker=true"
      - "--providers.docker.exposedbydefault=false"
      - "--entrypoints.web.address=:80"
  api:
    image: myapi:latest
    labels:
      - "traefik.enable=true"
      - "traefik.http.routers.api.rule=Host(`a.io`) || Host(`b.io`)"
      - "traefik.http.routers.api.entrypoints=web"
      - "traefik.http.services.api.loadbalancer.server.port=8000"
"#;

#[test]
fn http_only_stack_converts_and_validates() {
    let c = convert_str(HTTP_ONLY, &[]).ok().expect("should convert");
    assert_eq!(upstream_url(&c, "api"), "http://api:8000");
    assert_eq!(
        c.doc.routes[0].hosts,
        Some(vec!["a.io".to_string(), "b.io".to_string()])
    );
    assert_eq!(c.doc.routes[0].upstream, "api");
    assert!(c
        .findings
        .iter()
        .any(|f| f.status == Status::Auto && f.directive.contains("providers.docker")));
}

#[test]
fn unresolved_host_variable_yields_no_routes() {
    let src = HTTP_ONLY.replace("Host(`a.io`) || Host(`b.io`)", "Host(`${PUBLIC_FQDN}`)");
    match convert_str(&src, &[]) {
        Err(ConvertError::NoRoutes(f)) => {
            assert!(f
                .iter()
                .any(|x| x.status == Status::Unsupported && x.detail.contains("PUBLIC_FQDN")));
        }
        _ => panic!("expected NoRoutes"),
    }
}

#[test]
fn var_override_resolves_the_host() {
    let src = HTTP_ONLY.replace("Host(`a.io`) || Host(`b.io`)", "Host(`${PUBLIC_FQDN}`)");
    let c = convert_str(&src, &[("PUBLIC_FQDN", "app.example.com")])
        .ok()
        .expect("should convert");
    assert_eq!(
        c.doc.routes[0].hosts,
        Some(vec!["app.example.com".to_string()])
    );
}

#[test]
fn tls_certresolver_is_partial_not_silent() {
    let src = r#"
services:
  traefik:
    image: traefik:v3.3
    command:
      - "--providers.docker=true"
      - "--entrypoints.websecure.address=:443"
      - "--certificatesresolvers.le.acme.email=ops@example.com"
  fe:
    image: myfe:latest
    labels:
      - "traefik.enable=true"
      - "traefik.http.routers.fe.rule=Host(`app.io`)"
      - "traefik.http.routers.fe.entrypoints=websecure"
      - "traefik.http.routers.fe.tls.certresolver=le"
      - "traefik.http.services.fe.loadbalancer.server.port=3000"
"#;
    let c = convert_str(src, &[]).ok().expect("should convert");
    let tls = c
        .findings
        .iter()
        .find(|f| f.directive.contains("certresolver"))
        .expect("certresolver finding");
    assert_eq!(tls.status, Status::Partial);
    assert!(tls.detail.contains("ops@example.com"));
    assert_eq!(upstream_url(&c, "fe"), "http://fe:3000");
}

#[test]
fn service_without_enable_is_skipped() {
    let src = HTTP_ONLY.replace("\"traefik.enable=true\"", "\"traefik.enable=false\"");
    assert!(matches!(
        convert_str(&src, &[]),
        Err(ConvertError::NoRoutes(_))
    ));
}

#[test]
fn dot_env_next_to_file_is_read() {
    let compose = HTTP_ONLY.replace("Host(`a.io`) || Host(`b.io`)", "Host(`${SITE}`)");
    let c = convert(&compose, Some("SITE=env.example.com\n"), &Vec::new())
        .ok()
        .expect("convert via .env");
    assert_eq!(
        c.doc.routes[0].hosts,
        Some(vec!["env.example.com".to_string()])
    );
}

#[test]
fn overrides_win_over_dot_env() {
    let compose = HTTP_ONLY.replace("Host(`a.io`) || Host(`b.io`)", "Host(`${SITE}`)");
    let cli = vec![("SITE".to_string(), "cli.example.com".to_string())];
    let c = convert(&compose, Some("SITE=env.example.com\n"), &cli)
        .ok()
        .expect("convert");
    assert_eq!(
        c.doc.routes[0].hosts,
        Some(vec!["cli.example.com".to_string()])
    );
}

#[test]
fn router_without_a_port_is_refused() {
    let src = HTTP_ONLY.replace(
        "      - \"traefik.http.services.api.loadbalancer.server.port=8000\"\n",
        "",
    );
    match convert_str(&src, &[]) {
        Err(ConvertError::NoRoutes(f)) => assert!(f.iter().any(|x| x.status
            == Status::Unsupported
            && x.detail.contains("loadbalancer.server.port"))),
        _ => panic!("expected NoRoutes"),
    }
}

#[test]
fn broken_compose_is_a_parse_error() {
    match convert_str("services:\n\ta:\n", &[]) {
        Err(ConvertError::Parse(e)) => assert!(e.contains("line 2"), "{e}"),
        _ => panic!("expected Parse error"),
    }
}

#[test]
fn plain_tls_and_redirections_are_reported() {
    let src = r#"
services:
  traefik:
    image: traefik:v3.3
    command:
      - "--providers.docker=true"
      - "--entrypoints.web.http.redirections.entrypoint.to=websecure"
      - "--entrypoints.web.http.redirections.entrypoint.scheme=https"
  web:
    labels:
      - "traefik.enable=true"
      - "traefik.http.routers.web.rule=Host(`${DOMAIN:-localhost}`)"
      - "traefik.http.routers.web.tls=true"
      - "traefik.http.services.web.loadbalancer.server.port=8080"
"#;
    let c = convert_str(src, &[]).ok().expect("convert");
    assert_eq!(upstream_url(&c, "web"), "http://web:8080");
    assert_eq!(c.doc.routes[0].hosts, Some(vec!["localhost".to_string()]));
    assert!(c
        .findings
        .iter()
        .any(|f| f.status == Status::Partial && f.directive.contains("tls=true")));
    let n = c
        .findings
        .iter()
        .filter(|f| f.directive.contains("redirections"))
        .count();
    assert_eq!(n, 1);
}

#[test]
fn challenge_router_is_dropped_as_built_in() {
    let src = HTTP_ONLY.replace(
        "      - \"traefik.http.routers.api.entrypoints=web\"\n",
        "      - \"traefik.http.routers.api-acme.rule=Host(`a.io`) && PathPrefix(`/.well-known/acme-challenge`)\"\n      - \"traefik.http.routers.api-acme.service=api\"\n",
    );
    let c = convert_str(&src, &[]).ok().expect("convert");
    assert_eq!(c.doc.routes.len(), 1);
    assert!(c
        .findings
        .iter()
        .any(|f| f.status == Status::Auto && f.directive.contains("api-acme")));
}

#[test]
fn routers_come_in_the_order_of_their_names() {
    let src = "\
services:
  api:
    labels:
      - \"traefik.enable=true\"
      - \"traefik.http.routers.zed.rule=Host(`z.test`)\"
      - \"traefik.http.routers.abc.rule=Host(`a.test`)\"
      - \"traefik.http.routers.abc.priority=7\"
      - \"traefik.http.services.api.loadbalancer.server.port=8000\"
      - \"traefik.http.services.api.loadbalancer.sticky=true\"
  off:
    labels:
      - \"traefik.http.routers.off.rule=Host(`off.test`)\"
";
    let c = convert_str(src, &[]).ok().expect("convert");
    let hosts: Vec<String> = c
        .doc
        .routes
        .iter()
        .map(|r| r.hosts.clone().unwrap()[0].clone())
        .collect();
    assert_eq!(hosts, vec!["a.test", "z.test"]);
    assert_eq!(c.doc.upstreams.len(), 1);
    assert!(c.doc.routes.iter().all(|r| r.upstream == c.doc.upstreams[0].name));
    let told = |status: Status, directive: &str, line: u32| {
        c.findings
            .iter()
            .any(|f| f.status == status && f.directive == directive && f.line == line)
    };
    assert!(told(Status::Unsupported, "routers.abc.priority", 7));
    assert!(told(Status::Partial, "services.api.loadbalancer.sticky", 9));
    assert!(told(Status::Convert, "routers.abc", 6));
    assert!(told(Status::Convert, "routers.zed", 5));
}

#[test]
fn a_path_matcher_without_a_path_is_told() {
    for (rule, directive) in [
        ("PathPrefix()", "rule: PathPrefix()"),
        ("Host(`a.io`) && Path()", "rule: Path()"),
    ] {
        let mut f = Vec::new();
        assert!(parse_rule(rule, 9, &env(&[]), &mut f).is_none());
        assert_eq!(f.len(), 1);
        assert_eq!(f[0].status, Status::Unsupported);
        assert_eq!(f[0].line, 9);
        assert_eq!(f[0].directive, directive);
        assert_eq!(f[0].detail, "matcher without a path — route dropped");
    }
}

#[test]
fn routing_labels_that_are_not_read_are_told() {
    let src = "\
services:
  api:
    labels:
      - \"traefik.enable=true\"
      - \"traefik.http.routers.api.rule=Host(`a.test`)\"
      - \"traefik.http.services.api.loadbalancer.server.port=8000\"
      - \"traefik.http.routers.api=x\"
      - \"traefik.http.services.api=x\"
      - \"traefik.http.serverstransports.t.insecureskipverify=true\"
      - \"traefik.docker.network=web\"
";
    let c = convert_str(src, &[]).ok().expect("convert");
    for (line, directive) in [
        (7, "http.routers.api"),
        (8, "http.services.api"),
        (9, "http.serverstransports.t.insecureskipverify"),
    ] {
        let told: Vec<_> = c.findings.iter().filter(|f| f.line == line).collect();
        assert_eq!(told.len(), 1, "in line {line}");
        assert_eq!(told[0].status, Status::Unsupported);
        assert_eq!(told[0].directive, directive);
        assert_eq!(told[0].detail, "label is not converted");
    }
    assert!(c.findings.iter().all(|f| f.line != 10));
}

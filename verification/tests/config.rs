use rate_mirrors::config::{Config, Protocol};
use rate_mirrors::countries::{Country, CountryGraph, LinkTo, LinkType};
use rate_mirrors::mirror::MirrorInfo;

#[test]
fn protocol_parses_schemes() {
    assert_eq!(Protocol::from_str("http"), Ok(Protocol::Http));
    assert_eq!(Protocol::from_str("https"), Ok(Protocol::Https));
    assert!(Protocol::from_str("ftp").is_err());
}

#[test]
fn defaults_match_the_documented_surface() {
    let c = Config::default();
    assert_eq!(c.per_mirror_timeout, 8000);
    assert_eq!(c.min_per_mirror, 300);
    assert_eq!(c.max_per_mirror, 1000);
    assert_eq!(c.min_bytes_per_mirror, 70000);
    assert_eq!(c.eps_micros, 62500);
    assert_eq!(c.eps_checks, 40);
    assert_eq!(c.concurrency, 16);
    assert_eq!(c.concurrency_for_unlabeled, 40);
    assert_eq!(c.max_jumps, 7);
    assert_eq!(c.entry_country, "US");
    assert_eq!(c.country_neighbors_per_country, 3);
    assert_eq!(c.country_test_mirrors_per_country, 2);
    assert_eq!(c.top_mirrors_number_to_retest, 5);
    assert!(c.check_wf());
}

#[test]
fn protocol_filter_reads_the_scheme() {
    let mut c = Config::default();
    assert!(c.is_protocol_allowed_for_url("https://a.example/"));
    c.protocols = vec![Protocol::Https];
    assert!(c.is_protocol_allowed_for_url("https://a.example/"));
    assert!(!c.is_protocol_allowed_for_url("http://a.example/"));
    assert!(!c.is_protocol_allowed_for_url("ftp://a.example/"));
    assert!(!c.is_protocol_allowed_for_url("not a url"));
}

#[test]
fn preferred_url_takes_the_first_allowed() {
    let mut c = Config::default();
    c.protocols = vec![Protocol::Https];
    let urls = vec![
        "http://a.example/".to_string(),
        "https://b.example/".to_string(),
        "https://c.example/".to_string(),
    ];
    assert_eq!(c.get_preferred_url(&urls).map(|s| s.as_str()), Some("https://b.example/"));
    let none = vec!["http://a.example/".to_string()];
    assert_eq!(c.get_preferred_url(&none), None);
}

fn graph() -> CountryGraph {
    CountryGraph::new(vec![Country {
        code: "US".to_string(),
        cable_connections_number: 1,
        internet_exchanges_number: 1,
        links: Vec::new(),
    }])
    .expect("valid graph")
}

#[test]
fn graph_rejects_duplicate_codes() {
    let us = Country {
        code: "US".to_string(),
        cable_connections_number: 1,
        internet_exchanges_number: 1,
        links: Vec::new(),
    };
    let us2 = us.clone();
    assert!(CountryGraph::new(vec![us, us2]).is_none());
}

#[test]
fn graph_rejects_dangling_links() {
    let us = Country {
        code: "US".to_string(),
        cable_connections_number: 1,
        internet_exchanges_number: 1,
        links: vec![LinkTo {
            code: "ZZ".to_string(),
            distance: 100,
            link_type: LinkType::Submarine,
        }],
    };
    assert!(CountryGraph::new(vec![us]).is_none());
}

#[test]
fn graph_lookup_is_case_insensitive() {
    let g = graph();
    assert!(g.lookup("us").is_some());
    assert!(g.lookup("US").is_some());
    assert!(g.lookup("zz").is_none());
}

#[test]
fn mirror_info_parses_lines() {
    let g = graph();
    let info = MirrorInfo::parse("https://a.example/x", "\t", &g).expect("plain url");
    assert_eq!(info.url, "https://a.example/x");
    assert_eq!(info.country, None);
    let info = MirrorInfo::parse("https://a.example/x\tus", "\t", &g).expect("url and country");
    assert_eq!(info.country.as_deref(), Some("US"));
    let info = MirrorInfo::parse("us\thttps://a.example/x", "\t", &g).expect("country and url");
    assert_eq!(info.country.as_deref(), Some("US"));
    assert!(MirrorInfo::parse("nope", "\t", &g).is_err());
    assert!(MirrorInfo::parse("a\tb\tc", "\t", &g).is_err());
}

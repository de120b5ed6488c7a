use rate_mirrors::config::Config;
use rate_mirrors::countries::CountryGraph;
use rate_mirrors::target_configs::archlinux::{ArchMirrorsSortingStrategy, ArchTarget};
use rate_mirrors::target_configs::debian::{DebianTarget, SourceListEntriesOpts};
use rate_mirrors::target_configs::endeavouros::EndeavourOSTarget;
use rate_mirrors::target_configs::rebornos::RebornOSTarget;
use rate_mirrors::targets::archlinux::ArchMirror;
use rate_mirrors::targets::debian::format_debian_mirror;
use rate_mirrors::mirror::Mirror;
use rate_mirrors::countries::{Country, LinkTo, LinkType};

fn sample_graph() -> CountryGraph {
    let us = Country {
        code: "US".to_string(),
        cable_connections_number: 50,
        internet_exchanges_number: 100,
        links: vec![
            LinkTo { code: "DE".to_string(), distance: 7000, link_type: LinkType::Submarine },
            LinkTo { code: "CA".to_string(), distance: 9000, link_type: LinkType::Terrestrial },
        ],
    };
    let de = Country {
        code: "DE".to_string(),
        cable_connections_number: 30,
        internet_exchanges_number: 80,
        links: vec![LinkTo { code: "US".to_string(), distance: 7000, link_type: LinkType::Submarine }],
    };
    let ca = Country {
        code: "CA".to_string(),
        cable_connections_number: 20,
        internet_exchanges_number: 40,
        links: vec![LinkTo { code: "US".to_string(), distance: 9000, link_type: LinkType::Terrestrial }],
    };
    CountryGraph::new(vec![us, de, ca]).expect("valid graph")
}

#[test]
fn rebornos_list_parses_uncommented_server_lines() {
    let target = RebornOSTarget {
        fetch_mirrors_timeout: 1000,
        path_to_test: "core/os/x86_64/core.files".to_string(),
        comment_prefix: "# ".to_string(),
    };
    let config = Config::default();
    let text = "# comment\nServer = https://a.example/repo/\n\nServer = not a url\n";
    let mirrors = target.parse_mirror_list(text, &config);
    assert_eq!(mirrors.len(), 1);
    assert_eq!(mirrors[0].url, "https://a.example/repo/");
    assert_eq!(
        mirrors[0].url_to_test,
        "https://a.example/repo/core/os/x86_64/core.files"
    );
}

#[test]
fn endeavouros_list_tracks_country_headers() {
    let graph = sample_graph();
    let target = EndeavourOSTarget {
        fetch_mirrors_timeout: 1000,
        version_mirror_timeout: 1000,
        version_mirror_concurrency: 4,
        mirror_list_file: "unused".to_string(),
        path_to_test: "endeavouros/x86_64/endeavouros.files".to_string(),
        comment_prefix: "# ".to_string(),
    };
    let config = Config::default();
    let text = "## de\nServer = https://de.example/$repo/$arch\n## Nowhere\nServer = https://x.example/$repo/$arch\n";
    let mirrors = target.parse_mirror_list(text, &config, &graph);
    assert_eq!(mirrors.len(), 2);
    assert_eq!(mirrors[0].country.as_deref(), Some("DE"));
    assert_eq!(mirrors[1].country, None);
}

#[test]
fn endeavouros_state_line_and_version_select() {
    let target = EndeavourOSTarget {
        fetch_mirrors_timeout: 1000,
        version_mirror_timeout: 1000,
        version_mirror_concurrency: 4,
        mirror_list_file: "unused".to_string(),
        path_to_test: "p".to_string(),
        comment_prefix: "# ".to_string(),
    };
    assert_eq!(target.parse_state_line("42\nsomething"), Some(42));
    assert_eq!(target.parse_state_line("nope"), None);
    let m = |u: &str| Mirror {
        url: u.to_string(),
        url_to_test: u.to_string(),
        country: None,
        base_path: None,
    };
    let versioned = vec![
        (m("https://a/"), Some(7)),
        (m("https://b/"), Some(9)),
        (m("https://c/"), None),
        (m("https://d/"), Some(9)),
    ];
    let (kept, max_v) = target.select_latest_version(versioned);
    assert_eq!(max_v, Some(9));
    assert_eq!(kept.len(), 2);
    assert_eq!(kept[0].url, "https://b/");
    assert_eq!(kept[1].url, "https://d/");
}

#[test]
fn arch_filter_drops_stale_and_disallowed() {
    let target = ArchTarget {
        completion_permille: 1000,
        max_delay: 3600,
        sort_mirrors_by: ArchMirrorsSortingStrategy::ScoreAsc,
        path_to_test: "core/os/x86_64/core.files".to_string(),
        fetch_mirrors_timeout: 1000,
        fetch_first_tier_only: false,
        comment_prefix: "# ".to_string(),
    };
    let config = Config::default();
    let rec = |proto: &str, delay: i64, completion: u64, cc: &str| ArchMirror {
        protocol: proto.to_string(),
        url: "https://a.example/".to_string(),
        score_micros: Some(1_500_000),
        delay: Some(delay),
        country_code: cc.to_string(),
        completion_permille: Some(completion),
    };
    let mirrors = vec![
        rec("https", 100, 1000, "US"),
        rec("https", 100_000, 1000, "US"),
        rec("ftp", 100, 1000, "US"),
        rec("https", 100, 900, "US"),
        rec("https", 100, 1000, ""),
    ];
    let kept = target.filter_mirrors(mirrors, &config);
    assert_eq!(kept.len(), 1);
    assert_eq!(kept[0].delay, Some(100));
}

#[test]
fn arch_sort_orders_by_score() {
    let target = ArchTarget {
        completion_permille: 1000,
        max_delay: 3600,
        sort_mirrors_by: ArchMirrorsSortingStrategy::ScoreAsc,
        path_to_test: "p".to_string(),
        fetch_mirrors_timeout: 1000,
        fetch_first_tier_only: false,
        comment_prefix: "# ".to_string(),
    };
    let rec = |url: &str, score: Option<u64>| ArchMirror {
        protocol: "https".to_string(),
        url: url.to_string(),
        score_micros: score,
        delay: Some(1),
        country_code: "US".to_string(),
        completion_permille: Some(1000),
    };
    let mirrors = vec![
        rec("https://b/", Some(2_000_000)),
        rec("https://a/", Some(1_000_000)),
        rec("https://n/", None),
    ];
    let sorted = target.sort_mirrors(mirrors, ArchMirrorsSortingStrategy::ScoreAsc);
    // ascending by score, with a missing score first (it compares lowest)
    assert_eq!(sorted[0].url, "https://n/");
    assert_eq!(sorted[1].url, "https://a/");
    assert_eq!(sorted[2].url, "https://b/");
}

#[test]
fn debian_format_writes_one_line_per_type_and_suite() {
    let opts = SourceListEntriesOpts {
        types: vec!["deb".to_string(), "deb-src".to_string()],
        options: vec!["arch=amd64".to_string()],
        suites: vec!["stable".to_string(), "testing".to_string()],
        components: vec!["main".to_string(), "contrib".to_string()],
    };
    let mirror = Mirror {
        url: "https://deb.example/debian/".to_string(),
        url_to_test: "https://deb.example/debian/ls-lR.gz".to_string(),
        country: None,
        base_path: None,
    };
    let text = format_debian_mirror(&opts, &mirror);
    let expected = "deb [arch=amd64] https://deb.example/debian/ stable main contrib\n\
deb [arch=amd64] https://deb.example/debian/ testing main contrib\n\
deb-src [arch=amd64] https://deb.example/debian/ stable main contrib\n\
deb-src [arch=amd64] https://deb.example/debian/ testing main contrib";
    assert_eq!(text, expected);
    let dt = DebianTarget {
        source_list_opts: opts,
        max_delay: 86400,
        path_to_test: "ls-lR.gz".to_string(),
        fetch_mirrors_timeout: 1000,
        comment_prefix: "# ".to_string(),
    };
    assert_eq!(dt.format_mirror(&mirror), expected);
}

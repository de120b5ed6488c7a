use rate_mirrors::config::{Config, Protocol};
use rate_mirrors::countries::{Country, CountryGraph, LinkTo, LinkType};
use rate_mirrors::target_configs as tc;
use rate_mirrors::targets::manjaro::ManjaroMirrorData;
use rate_mirrors::targets::ubuntu::UbuntuMirrorInfo;
use rate_mirrors::target_configs::manjaro::ManjaroBranch;
use rate_mirrors::target_configs::archlinux::ArchMirrorsSortingStrategy as SortStrategy;

fn graph() -> CountryGraph {
    let mk = |code: &str| Country {
        code: code.to_string(),
        cable_connections_number: 1,
        internet_exchanges_number: 1,
        links: vec![],
    };
    let _ = LinkTo {
        code: "US".to_string(),
        distance: 1,
        link_type: LinkType::Submarine,
    };
    CountryGraph::new(vec![mk("US"), mk("DE"), mk("NL")]).expect("valid graph")
}

#[test]
fn artix_list_reads_commented_servers_and_headers() {
    let t = tc::artix::ArtixTarget {
        base_path: "world/os/x86_64/world".to_string(),
        fetch_mirrors_timeout: 1000,
        comment_prefix: "# ".to_string(),
    };
    let config = Config::default();
    let text = "## de\n# Server = https://de.example/$repo/os/$arch\nServer = https://de2.example/$repo/os/$arch\n";
    let mirrors = t.parse_mirror_list(text, &config, &graph());
    assert_eq!(mirrors.len(), 2);
    assert_eq!(mirrors[0].url, "https://de.example/");
    assert_eq!(mirrors[0].country.as_deref(), Some("DE"));
    assert_eq!(
        mirrors[1].url_to_test,
        "https://de2.example/world/os/x86_64/world"
    );
}

#[test]
fn blackarch_list_reads_pipe_fields() {
    let t = tc::blackarch::BlackArchTarget {
        fetch_mirrors_timeout: 1000,
        base_path: "blackarch/os/x86_64/blackarch".to_string(),
        arch: "auto".to_string(),
        comment_prefix: "# ".to_string(),
    };
    let config = Config::default();
    let text = "# comment\nDE|https://m.example/blackarch/$repo/os/$arch|m.example\nbroken line\n";
    let mirrors = t.parse_mirror_list(text, &config, &graph());
    assert_eq!(mirrors.len(), 1);
    assert_eq!(mirrors[0].country.as_deref(), Some("DE"));
    assert_eq!(mirrors[0].base_path.as_deref(), Some("blackarch/os/x86_64/blackarch"));
    assert_eq!(
        mirrors[0].url_to_test,
        "https://m.example/blackarch/blackarch/os/x86_64/blackarch.files"
    );
}

#[test]
fn openbsd_list_reads_country_from_description() {
    let t = tc::openbsd::OpenBSDTarget {
        path_to_test: "/snapshots/ports.tar.gz".to_string(),
        fetch_mirrors_timeout: 1000,
        comment_prefix: "# ".to_string(),
    };
    let config = Config::default();
    let text = "https://cdn.example/pub/OpenBSD/ \tFastly (CDN)\nhttps://nl.example/pub/OpenBSD/ \tAmsterdam, The Netherlands\nhttps://de.example/pub/OpenBSD/ \tFrankfurt, DE\n";
    let mirrors = t.parse_mirror_list(text, &config, &graph());
    assert_eq!(mirrors.len(), 3);
    assert_eq!(mirrors[0].country, None); // "CDN" is no country of the graph
    assert_eq!(mirrors[1].country.as_deref(), Some("NL"));
    assert_eq!(mirrors[2].country.as_deref(), Some("DE"));
    // the test path is appended to the URL text, as the list format
    // expects, so the path keeps its leading slash
    assert_eq!(
        mirrors[2].url_to_test,
        "https://de.example/pub/OpenBSD//snapshots/ports.tar.gz"
    );
}

#[test]
fn manjaro_keeps_fresh_mirrors_of_the_branch() {
    let t = tc::manjaro::ManjaroTarget {
        fetch_mirrors_timeout: 1000,
        max_delay: 3600,
        path_to_test: "extra/x86_64/extra.files".to_string(),
        comment_prefix: "# ".to_string(),
        branch: tc::manjaro::ManjaroBranch::Stable,
    };
    let config = Config::default();
    let rec = |url: &str, sync: Option<&str>, branches: Vec<i8>| ManjaroMirrorData {
        branches,
        country: "de".to_string(),
        last_sync: sync.map(|s| s.to_string()),
        protocols: vec!["https".to_string()],
        url: url.to_string(),
    };
    // 2024-01-01 01:00 UTC is 1704070800
    let now_ts = 1704070800 + 600;
    let records = vec![
        rec("fresh.example/", Some("2024-01-01 01:00"), vec![1, 1, 0]),
        rec("stale.example/", Some("2023-01-01 01:00"), vec![1, 1, 0]),
        rec("nobranch.example/", Some("2024-01-01 01:00"), vec![0, 1, 0]),
        rec("nosync.example/", None, vec![1, 1, 0]),
    ];
    let mirrors = t.to_mirrors(records, &config, &graph(), now_ts);
    assert_eq!(mirrors.len(), 1);
    assert_eq!(mirrors[0].url, "https://fresh.example/");
    assert_eq!(mirrors[0].country.as_deref(), Some("DE"));
    assert_eq!(
        mirrors[0].url_to_test,
        "https://fresh.example/stable/extra/x86_64/extra.files"
    );
}

#[test]
fn ubuntu_rows_keep_up_to_date_allowed_urls() {
    let t = tc::ubuntu::UbuntuTarget {
        source_list_opts: tc::debian::SourceListEntriesOpts {
            types: vec!["deb".to_string()],
            options: vec![],
            suites: vec!["stable".to_string()],
            components: vec!["main".to_string()],
        },
        max_delay: 86400,
        path_to_test: "ls-lR.gz".to_string(),
        fetch_mirrors_timeout: 1000,
        comment_prefix: "# ".to_string(),
    };
    let mut config = Config::default();
    config.protocols = vec![Protocol::Https];
    let rows = vec![
        UbuntuMirrorInfo {
            urls: vec![
                "http://a.example/ubuntu/".to_string(),
                "https://a.example/ubuntu/".to_string(),
            ],
            is_up_to_date: true,
        },
        UbuntuMirrorInfo {
            urls: vec!["https://b.example/ubuntu/".to_string()],
            is_up_to_date: false,
        },
    ];
    let mirrors = t.build_mirrors("de", rows, &config, &graph());
    assert_eq!(mirrors.len(), 1);
    assert_eq!(mirrors[0].url, "https://a.example/ubuntu/");
    assert_eq!(mirrors[0].country.as_deref(), Some("DE"));
    assert_eq!(mirrors[0].url_to_test, "https://a.example/ubuntu/ls-lR.gz");
}

#[test]
fn stdin_lines_become_mirrors() {
    let t = tc::stdin::StdinTarget {
        path_to_test: "".to_string(),
        path_to_return: "dir/".to_string(),
        comment_prefix: "# ".to_string(),
        output_prefix: "".to_string(),
        input_separator: "\t".to_string(),
    };
    let config = Config::default();
    let g = graph();
    let m = t
        .build_mirror("https://a.example/x/\tde", &config, &g)
        .expect("parses")
        .expect("allowed");
    assert_eq!(m.url, "https://a.example/x/");
    assert_eq!(m.url_to_test, "https://a.example/x/dir/");
    assert_eq!(m.country.as_deref(), Some("DE"));
    assert!(t.build_mirror("not a url", &config, &g).is_err());
}

#[test]
fn cachyos_list_strips_layout_variables() {
    let t = tc::cachyos::CachyOSTarget {
        fetch_mirrors_timeout: 1000,
        path_to_test: "x86_64/cachyos/cachyos.files".to_string(),
        arch: "auto".to_string(),
        comment_prefix: "# ".to_string(),
    };
    let config = Config::default();
    let text = "Server = https://c.example/repo/$arch/$repo\n# Server = commented\n";
    let mirrors = t.parse_mirror_list(text, &config);
    assert_eq!(mirrors.len(), 1);
    assert_eq!(mirrors[0].url, "https://c.example/repo/");
    assert_eq!(
        mirrors[0].url_to_test,
        "https://c.example/repo/x86_64/cachyos/cachyos.files"
    );
}

#[test]
fn archlinuxcn_accepts_commented_servers() {
    let t = tc::archlinuxcn::ArchCNTarget {
        fetch_mirrors_timeout: 1000,
        base_path: "archlinuxcn/x86_64/archlinuxcn".to_string(),
        arch: "auto".to_string(),
        comment_prefix: "# ".to_string(),
    };
    let config = Config::default();
    let text = "# Server = https://cn.example/repo/$arch\nServer = https://cn2.example/repo/$arch\n";
    let mirrors = t.parse_mirror_list(text, &config);
    assert_eq!(mirrors.len(), 2);
    assert_eq!(
        mirrors[0].url_to_test,
        "https://cn.example/repo/archlinuxcn/x86_64/archlinuxcn.files"
    );
}

#[test]
fn chaotic_list_needs_no_protocol_filter() {
    let t = tc::chaotic::ChaoticTarget {
        fetch_mirrors_timeout: 1000,
        path_to_test: "chaotic-aur/x86_64/chaotic-aur.files".to_string(),
        arch: "auto".to_string(),
        comment_prefix: "# ".to_string(),
    };
    let text = "# Server = https://x.example/$repo/$arch\nServer = https://y.example/$repo/$arch\n";
    let mirrors = t.parse_mirror_list(text);
    assert_eq!(mirrors.len(), 2);
    assert_eq!(mirrors[1].url, "https://y.example/");
}

#[test]
fn arcolinux_routes_gitlab_urls_through_the_gitlab_path() {
    let t = tc::arcolinux::ArcoLinuxTarget {
        path_to_test: "arcolinux_repo_3party/x86_64/arcolinux_repo_3party.files".to_string(),
        gitlab_path_to_test: "arcolinux_repo_3party/-/raw/main/x86_64/arcolinux_repo_3party.files"
            .to_string(),
        fetch_mirrors_timeout: 1000,
        comment_prefix: "# ".to_string(),
    };
    let config = Config::default();
    let text = "Server = https://gitlab.com/arcolinux/$repo/-/raw/main/$arch\nServer = https://mirror.example/arcolinux/$repo/$arch\n";
    let mirrors = t.parse_mirror_list(text, &config);
    assert_eq!(mirrors.len(), 2);
    assert_eq!(
        mirrors[0].url_to_test,
        "https://gitlab.com/arcolinux/arcolinux_repo_3party/-/raw/main/x86_64/arcolinux_repo_3party.files"
    );
    assert_eq!(
        mirrors[1].url_to_test,
        "https://mirror.example/arcolinux/arcolinux_repo_3party/x86_64/arcolinux_repo_3party.files"
    );
}

#[test]
fn branch_names_parse_and_print() {
    assert_eq!(ManjaroBranch::from_str("stable"), Ok(ManjaroBranch::Stable));
    assert_eq!(ManjaroBranch::from_str("testing"), Ok(ManjaroBranch::Testing));
    assert_eq!(ManjaroBranch::from_str("unstable"), Ok(ManjaroBranch::Unstable));
    assert!(ManjaroBranch::from_str("other").is_err());
    assert_eq!(ManjaroBranch::Stable.as_text(), "stable");
}

#[test]
fn sorting_strategy_names_parse() {
    assert_eq!(SortStrategy::from_str("delay_asc"), Ok(SortStrategy::DelayAsc));
    assert_eq!(SortStrategy::from_str("delay_desc"), Ok(SortStrategy::DelayDesc));
    assert_eq!(SortStrategy::from_str("random"), Ok(SortStrategy::Random));
    assert_eq!(SortStrategy::from_str("score_asc"), Ok(SortStrategy::ScoreAsc));
    assert_eq!(SortStrategy::from_str("score_desc"), Ok(SortStrategy::ScoreDesc));
    assert!(SortStrategy::from_str("other").is_err());
}

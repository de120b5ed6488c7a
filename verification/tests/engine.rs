use rate_mirrors::config::Config;
use rate_mirrors::countries::{Country, CountryGraph, LinkTo, LinkType};
use rate_mirrors::engine::{Engine, ProgressEvent, RateStrategy};
use rate_mirrors::mirror::Mirror;
use rate_mirrors::report::{run_outcome, RunOutcome};
use rate_mirrors::speed_test::SpeedTestResult;
use rate_mirrors::engine::rate_country_link;

fn graph3() -> CountryGraph {
    let us = Country {
        code: "US".to_string(),
        cable_connections_number: 50,
        internet_exchanges_number: 100,
        links: vec![
            LinkTo { code: "DE".to_string(), distance: 6000, link_type: LinkType::Submarine },
            LinkTo { code: "CA".to_string(), distance: 9000, link_type: LinkType::Submarine },
        ],
    };
    let de = Country {
        code: "DE".to_string(),
        cable_connections_number: 30,
        internet_exchanges_number: 80,
        links: vec![LinkTo { code: "CA".to_string(), distance: 7000, link_type: LinkType::Submarine }],
    };
    let ca = Country {
        code: "CA".to_string(),
        cable_connections_number: 20,
        internet_exchanges_number: 40,
        links: vec![LinkTo { code: "DE".to_string(), distance: 7000, link_type: LinkType::Submarine }],
    };
    CountryGraph::new(vec![us, de, ca]).expect("valid graph")
}

fn mirror(url: &str, country: Option<&str>) -> Mirror {
    Mirror {
        url: url.to_string(),
        url_to_test: format!("{}test.db", url),
        country: country.map(|c| c.to_string()),
        base_path: None,
    }
}

fn result(m: &Mirror, bytes: u64, elapsed_ms: u64, conn_ms: u64) -> SpeedTestResult {
    SpeedTestResult::new(
        Mirror {
            url: m.url.clone(),
            url_to_test: m.url_to_test.clone(),
            country: m.country.clone(),
            base_path: m.base_path.clone(),
        },
        bytes,
        elapsed_ms,
        conn_ms,
    )
}

#[test]
fn nearer_links_rate_strictly_higher() {
    // two terrestrial links whose integer roots tie (distances 1 and 2
    // both have tenth root 1): the distance tiebreaker still ranks the
    // nearer one strictly higher
    let graph = CountryGraph::new(vec![
        Country {
            code: "AA".to_string(),
            cable_connections_number: 5,
            internet_exchanges_number: 5,
            links: vec![],
        },
        Country {
            code: "BB".to_string(),
            cable_connections_number: 5,
            internet_exchanges_number: 5,
            links: vec![],
        },
    ])
    .expect("valid graph");
    let by_country = vec![
        ("AA".to_string(), vec![mirror("https://aa.example/", Some("AA"))]),
        ("BB".to_string(), vec![mirror("https://bb.example/", Some("BB"))]),
    ];
    let near = LinkTo {
        code: "AA".to_string(),
        distance: 1,
        link_type: LinkType::Terrestrial,
    };
    let far = LinkTo {
        code: "BB".to_string(),
        distance: 2,
        link_type: LinkType::Terrestrial,
    };
    let near_rate = rate_country_link(&graph, &by_country, &near, RateStrategy::DistanceFirst);
    let far_rate = rate_country_link(&graph, &by_country, &far, RateStrategy::DistanceFirst);
    assert!(near_rate > far_rate, "{} vs {}", near_rate, far_rate);
    // and across a root step as well
    let mid = LinkTo {
        code: "BB".to_string(),
        distance: 1500,
        link_type: LinkType::Terrestrial,
    };
    let farther = LinkTo {
        code: "BB".to_string(),
        distance: 1501,
        link_type: LinkType::Terrestrial,
    };
    let a = rate_country_link(&graph, &by_country, &mid, RateStrategy::DistanceFirst);
    let b = rate_country_link(&graph, &by_country, &farther, RateStrategy::DistanceFirst);
    assert!(a > b, "{} vs {}", a, b);
}

#[test]
fn single_fast_mirror_yields_one_result() {
    let m = mirror("https://us1.example/", Some("US"));
    let (mut engine, _evs) = Engine::new(vec![m.clone()], graph3(), Config::default());
    let (batch, _evs) = engine.next_batch();
    let batch = batch.expect("a batch");
    assert_eq!(batch.len(), 1);
    assert_eq!(batch[0].url, "https://us1.example/");
    // a steady 1 MB/s probe: one megabyte in one second
    let r = result(&batch[0], 1_000_000, 1000, 30);
    assert!(r.speed >= 800_000 && r.speed <= 1_200_000);
    let (_stop, _evs) = engine.record_batch(vec![r]);
    assert_eq!(engine.results.len(), 1);
    assert_eq!(engine.jumps, 1);
}

#[test]
fn failing_mirror_is_simply_absent() {
    let us = mirror("https://us1.example/", Some("US"));
    let de = mirror("https://de1.example/", Some("DE"));
    let (mut engine, _evs) = Engine::new(vec![us, de], graph3(), Config::default());
    let (batch, _evs) = engine.next_batch();
    let batch = batch.expect("a batch");
    // both get probed (US sample plus DE as a neighbor)
    assert_eq!(batch.len(), 2);
    // the DE probe failed: only the US result comes back
    let r = result(&batch[0], 1_000_000, 1000, 30);
    let (_stop, _evs) = engine.record_batch(vec![r]);
    assert_eq!(engine.results.len(), 1);
    assert_eq!(engine.results[0].item.url, "https://us1.example/");
}

#[test]
fn country_jump_prefers_closer_neighbor_by_distance() {
    // the seed country has no mirrors of its own; both neighbors do, and
    // DE is closer, so the distance-first pass adds DE before CA
    let de1 = mirror("https://de1.example/", Some("DE"));
    let de2 = mirror("https://de2.example/", Some("DE"));
    let ca1 = mirror("https://ca1.example/", Some("CA"));
    let (mut engine, _evs) = Engine::new(vec![de1, de2, ca1], graph3(), Config::default());
    let (batch, evs) = engine.next_batch();
    let batch = batch.expect("a batch");
    let added: Vec<&ProgressEvent> = evs
        .iter()
        .filter(|e| matches!(e, ProgressEvent::NeighborAdded(_, _)))
        .collect();
    assert_eq!(added.len(), 2);
    assert!(matches!(added[0], ProgressEvent::NeighborAdded(c, RateStrategy::DistanceFirst) if c == "DE"));
    assert!(matches!(added[1], ProgressEvent::NeighborAdded(c, _) if c == "CA"));
    // DE mirrors enter the batch before the CA mirror
    assert_eq!(batch.len(), 3);
    assert!(batch[0].url.starts_with("https://de"));
    assert!(batch[1].url.starts_with("https://de"));
    assert!(batch[2].url.starts_with("https://ca"));
}

#[test]
fn speeds_getting_worse_stops_early() {
    // successive jumps with top speeds 10, 8, 6, 4 MB/s: the three most
    // recent drops each lose more than a sixth, so the engine stops
    let mut config = Config::default();
    config.country_test_mirrors_per_country = 1;
    let countries: Vec<Country> = ["US", "AA", "BB", "CC", "DD"]
        .iter()
        .enumerate()
        .map(|(i, code)| Country {
            code: code.to_string(),
            cable_connections_number: 10,
            internet_exchanges_number: 10,
            links: vec![LinkTo {
                code: ["US", "AA", "BB", "CC", "DD"][(i + 1) % 5].to_string(),
                distance: 1000,
                link_type: LinkType::Submarine,
            }],
        })
        .collect();
    let graph = CountryGraph::new(countries).expect("valid graph");
    let mirrors: Vec<Mirror> = ["US", "AA", "BB", "CC", "DD"]
        .iter()
        .map(|c| mirror(&format!("https://{}.example/", c), Some(c)))
        .collect();
    let (mut engine, _evs) = Engine::new(mirrors, graph, config);
    let speeds_mb = [10u64, 8, 6, 4];
    let mut stopped = false;
    for (jump, mb) in speeds_mb.iter().enumerate() {
        let (batch, _evs) = engine.next_batch();
        let batch = batch.expect("a batch");
        assert!(!batch.is_empty(), "jump {} got an empty batch", jump);
        // one result at the requested speed (from the batch's newest
        // country, so the frontier keeps moving): mb MB in one second
        let r = result(&batch[batch.len() - 1], mb * 1_000_000, 1000, 10);
        let (stop, evs) = engine.record_batch(vec![r]);
        if stop {
            assert!(evs.iter().any(|e| matches!(e, ProgressEvent::SpeedsDegrading)));
            stopped = true;
            break;
        }
    }
    assert!(stopped, "the engine never stopped on degrading speeds");
    assert!(engine.jumps < engine.config.max_jumps);
}

#[test]
fn all_probes_fail_falls_back_to_untested() {
    let mirrors = vec![
        mirror("https://a.example/", Some("US")),
        mirror("https://b.example/", Some("US")),
        mirror("https://c.example/", None),
    ];
    let untested = mirrors.clone();
    let (mut engine, _evs) = Engine::new(mirrors, graph3(), Config::default());
    let (batch, _evs) = engine.next_batch();
    let _batch = batch.expect("a batch");
    // every probe failed: nothing comes back
    let (stop, evs) = engine.record_batch(Vec::new());
    assert!(stop);
    assert!(evs.iter().any(|e| matches!(e, ProgressEvent::BlankIteration)));
    let _evs = engine.finish_jumping();
    let unlabeled = engine.take_unlabeled();
    assert!(!unlabeled.is_empty());
    // the unlabeled probes failed too
    engine.record_unlabeled_batch(Vec::new());
    let (top, evs) = engine.split_for_retest();
    assert!(top.is_none());
    assert!(evs.iter().any(|e| matches!(e, ProgressEvent::NoResultsToRetest)));
    // the outer orchestration then emits the untested list
    match run_outcome(Vec::new(), untested, false).expect("fallback") {
        RunOutcome::Untested(v) => assert_eq!(v.len(), 3),
        RunOutcome::Ranked(_) => panic!("no results were delivered"),
    }
}

#[test]
fn empty_candidates_is_an_error() {
    let r = run_outcome(Vec::new(), Vec::new(), false);
    assert!(matches!(
        r,
        Err(rate_mirrors::config::AppError::NoMirrorsAfterFiltering)
    ));
}

#[test]
fn disabled_fallback_is_an_error() {
    let untested = vec![mirror("https://a.example/", None)];
    let r = run_outcome(Vec::new(), untested, true);
    assert!(matches!(
        r,
        Err(rate_mirrors::config::AppError::SpeedTestsFailed)
    ));
}

#[test]
fn unknown_entry_country_falls_back_to_us() {
    let mut config = Config::default();
    config.entry_country = "ZZ".to_string();
    let m = mirror("https://us1.example/", Some("US"));
    let (engine, evs) = Engine::new(vec![m], graph3(), config);
    assert!(evs.iter().any(|e| matches!(e, ProgressEvent::UnknownEntryCountry)));
    assert_eq!(engine.frontier.len(), 1);
    assert_eq!(engine.frontier[0], "US");
}

#[test]
fn retest_reorders_by_serial_speed() {
    // five mirrors measured under contention at 10..6 MB/s; the serial
    // re-test finds A much slower, so the final order is B, C, D, E, A
    let names = ["a", "b", "c", "d", "e"];
    let contention = [10u64, 9, 8, 7, 6];
    let serial = [6u64, 10, 9, 8, 7];
    let mirrors: Vec<Mirror> = names
        .iter()
        .map(|n| mirror(&format!("https://{}.example/", n), Some("US")))
        .collect();
    let (mut engine, _evs) = Engine::new(mirrors.clone(), graph3(), Config::default());
    let (batch, _evs) = engine.next_batch();
    let _batch = batch.expect("a batch");
    let contended: Vec<SpeedTestResult> = mirrors
        .iter()
        .zip(contention.iter())
        .map(|(m, mb)| result(m, mb * 1_000_000, 1000, 10))
        .collect();
    let (_stop, _evs) = engine.record_batch(contended);
    // accumulated list is sorted by contended speed: a first
    assert_eq!(engine.results[0].item.url, "https://a.example/");
    let (top, _evs) = engine.split_for_retest();
    let top = top.expect("top mirrors");
    assert_eq!(top.len(), 5);
    let retested: Vec<SpeedTestResult> = top
        .iter()
        .map(|m| {
            let idx = names
                .iter()
                .position(|n| m.url == format!("https://{}.example/", n))
                .unwrap();
            result(m, serial[idx] * 1_000_000, 1000, 10)
        })
        .collect();
    let final_list = engine.finalize(retested);
    let order: Vec<&str> = final_list.iter().map(|r| r.item.url.as_str()).collect();
    assert_eq!(
        order,
        vec![
            "https://b.example/",
            "https://c.example/",
            "https://d.example/",
            "https://e.example/",
            "https://a.example/"
        ]
    );
}

#[test]
fn batch_urls_are_handed_out_once() {
    // two countries holding a mirror with the same test URL: only one
    // probe is handed out for it
    let a = Mirror {
        url: "https://a.example/".to_string(),
        url_to_test: "https://shared.example/test.db".to_string(),
        country: Some("US".to_string()),
        base_path: None,
    };
    let b = Mirror {
        url: "https://b.example/".to_string(),
        url_to_test: "https://shared.example/test.db".to_string(),
        country: Some("DE".to_string()),
        base_path: None,
    };
    let (mut engine, _evs) = Engine::new(vec![a, b], graph3(), Config::default());
    let (batch, _evs) = engine.next_batch();
    let batch = batch.expect("a batch");
    assert_eq!(batch.len(), 1);
}

#[test]
fn jump_budget_is_respected() {
    let mut config = Config::default();
    config.max_jumps = 2;
    config.country_test_mirrors_per_country = 1;
    let m1 = mirror("https://us1.example/", Some("US"));
    let m2 = mirror("https://de1.example/", Some("DE"));
    let m3 = mirror("https://ca1.example/", Some("CA"));
    let (mut engine, _evs) = Engine::new(vec![m1, m2, m3], graph3(), config);
    let mut jumps = 0;
    loop {
        let (batch, _evs) = engine.next_batch();
        let batch = match batch {
            Some(b) => b,
            None => break,
        };
        jumps += 1;
        let results: Vec<SpeedTestResult> = batch
            .iter()
            .map(|m| result(m, 1_000_000, 1000, 10))
            .collect();
        let (stop, _evs) = engine.record_batch(results);
        if stop {
            break;
        }
    }
    assert!(jumps <= 2);
    assert!(engine.jumps <= engine.config.max_jumps);
}

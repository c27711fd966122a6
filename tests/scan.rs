use infinite_cookbook::collection::Collection;
use infinite_cookbook::item::Item;
use infinite_cookbook::response::{classify, request_url, Response, ResponseFailure, ResponseSuccess};
use infinite_cookbook::scan::{distinct_names, Scan, Step};

fn steam_oracle(first: &str, second: &str) -> Result<ResponseSuccess, ResponseFailure> {
    if first == "Fire" && second == "Water" {
        Ok(ResponseSuccess::Produced(Response::new("Steam".to_string(), Some("💨".to_string()), true)))
    } else {
        Ok(ResponseSuccess::Nothing)
    }
}

fn run_scan(
    store: &mut Collection,
    mut scan: Scan,
    oracle: &dyn Fn(&str, &str) -> Result<ResponseSuccess, ResponseFailure>,
    calls: &mut Vec<(String, String)>,
) -> Step {
    loop {
        match scan.next_pair() {
            None => return Step::Finished { discovered: scan.discovered() },
            Some((a, b)) => {
                calls.push((a.clone(), b.clone()));
                match scan.record(store, oracle(&a, &b)) {
                    Step::Continue { .. } => {}
                    other => return other,
                }
            }
        }
    }
}

fn seed_pairs() -> Vec<(String, String)> {
    let names = ["Earth", "Fire", "Water", "Wind"];
    let mut v = vec![];
    for i in 0..4 {
        for j in i..4 {
            v.push((names[i].to_string(), names[j].to_string()));
        }
    }
    v
}

#[test]
fn full_scan_of_seed_finds_steam() {
    let mut store = Collection::new();
    let mut calls = vec![];
    let scan = Scan::of_store(&store);
    assert_eq!(scan.total(), 10);
    let step = run_scan(&mut store, scan, &steam_oracle, &mut calls);
    assert_eq!(step, Step::Finished { discovered: 1 });
    assert_eq!(store.len(), 5);
    let steam = store.get_item("Steam").unwrap();
    assert_eq!(steam.parents(), &[("Fire".to_string(), "Water".to_string())][..]);
    assert!(steam.is_new());
    assert_eq!(steam.emoji(), "💨");
    assert_eq!(calls, seed_pairs());
}

#[test]
fn second_scan_discovers_nothing_and_skips_known_pair() {
    let mut store = Collection::new();
    let mut calls = vec![];
    let first = Scan::of_store(&store);
    run_scan(&mut store, first, &steam_oracle, &mut calls);
    let mut again = vec![];
    let second = Scan::of_store(&store);
    let step = run_scan(&mut store, second, &steam_oracle, &mut again);
    assert_eq!(step, Step::Finished { discovered: 0 });
    assert!(!again.contains(&("Fire".to_string(), "Water".to_string())));
    for p in seed_pairs() {
        if p != ("Fire".to_string(), "Water".to_string()) {
            assert!(again.contains(&p));
        }
    }
    assert_eq!(again.len(), 14);
    assert_eq!(store.len(), 5);
}

#[test]
fn missing_glyph_becomes_placeholder() {
    let mut store = Collection::new();
    let mut scan = Scan::new(vec![("Fire".to_string(), "Water".to_string())]);
    let outcome = Ok(ResponseSuccess::Produced(Response::new("Steam".to_string(), None, false)));
    let step = scan.record(&mut store, outcome);
    assert_eq!(step, Step::Finished { discovered: 1 });
    let steam = store.get_item("Steam").unwrap();
    assert_eq!(steam.emoji(), "❓️");
    assert!(!steam.emoji().is_empty());
    assert!(!steam.is_new());
}

#[test]
fn candidates_are_reproducible() {
    let mut store = Collection::new();
    store.insert_or_update("Steam", "💨", true, "Fire", "Water");
    store.add_item("Mud", "🟫");
    let a = store.candidates();
    let b = store.candidates();
    assert_eq!(a, b);
    let mut sorted = a.clone();
    sorted.sort();
    sorted.dedup();
    assert_eq!(a, sorted);
    assert_eq!(a.len(), 21 - 1);
}

#[test]
fn sentinel_is_never_offered() {
    let mut store = Collection::new();
    store.add_item("Nothing", "");
    let names = vec!["Nothing".to_string(), "Fire".to_string(), "Fire".to_string(), "Water".to_string()];
    let scoped = store.candidates_among(&names);
    assert_eq!(
        scoped,
        vec![
            ("Fire".to_string(), "Fire".to_string()),
            ("Fire".to_string(), "Water".to_string()),
            ("Water".to_string(), "Water".to_string()),
        ]
    );
    for (a, b) in store.candidates() {
        assert_ne!(a, "Nothing");
        assert_ne!(b, "Nothing");
    }
    assert_eq!(distinct_names(&names), vec!["Fire".to_string(), "Water".to_string()]);
}

#[test]
fn scoped_scan_skips_pairs_known_anywhere() {
    let mut store = Collection::new();
    store.insert_or_update("Steam", "💨", true, "Fire", "Water");
    let names = vec!["Water".to_string(), "Fire".to_string()];
    let scan = Scan::of_names(&store, &names);
    assert_eq!(scan.total(), 2);
    let pairs = store.candidates_among(&names);
    assert_eq!(pairs, vec![("Fire".to_string(), "Fire".to_string()), ("Water".to_string(), "Water".to_string())]);
}

#[test]
fn fatal_failure_aborts_and_network_failure_skips() {
    let mut store = Collection::new();
    let mut scan = Scan::new(vec![
        ("Earth".to_string(), "Fire".to_string()),
        ("Fire".to_string(), "Water".to_string()),
    ]);
    assert_eq!(scan.record(&mut store, Err(ResponseFailure::NetworkError)), Step::Continue { snapshot: false });
    assert_eq!(scan.completed(), 1);
    let step = scan.record(&mut store, Err(ResponseFailure::NotAllowed));
    assert_eq!(step, Step::Aborted { completed: 1, failure: ResponseFailure::NotAllowed });
    assert_eq!(scan.completed(), 1);
    assert_eq!(store.len(), 4);
    let step = scan.record(&mut store, Err(ResponseFailure::Timeout));
    assert_eq!(step, Step::Aborted { completed: 1, failure: ResponseFailure::Timeout });
    assert!(ResponseFailure::ParsingError.is_fatal());
    assert!(!ResponseFailure::NetworkError.is_fatal());
}

#[test]
fn snapshot_every_thousand_pairs() {
    let mut store = Collection::new();
    let mut pairs = vec![];
    for i in 0..1001 {
        pairs.push((format!("a{i}"), format!("b{i}")));
    }
    let mut scan = Scan::new(pairs);
    let mut snapshots = 0;
    let mut last = Step::Continue { snapshot: false };
    while scan.next_pair().is_some() {
        last = scan.record(&mut store, Ok(ResponseSuccess::Nothing));
        if last == (Step::Continue { snapshot: true }) {
            snapshots += 1;
        }
    }
    assert_eq!(snapshots, 1);
    assert_eq!(last, Step::Finished { discovered: 0 });
}

#[test]
fn classify_maps_statuses() {
    let steam = || Some(Response::new("Steam".to_string(), None, false));
    assert!(matches!(classify(403, steam()), Err(ResponseFailure::NotAllowed)));
    assert!(matches!(classify(429, steam()), Err(ResponseFailure::Timeout)));
    assert!(matches!(classify(500, steam()), Err(ResponseFailure::NetworkError)));
    assert!(matches!(classify(200, None), Err(ResponseFailure::ParsingError)));
    let nothing = Some(Response::new("Nothing".to_string(), None, false));
    assert!(matches!(classify(200, nothing), Ok(ResponseSuccess::Nothing)));
    match classify(200, steam()) {
        Ok(ResponseSuccess::Produced(r)) => assert_eq!(r.name(), "Steam"),
        _ => panic!("expected an item"),
    }
}

#[test]
fn url_holds_names_verbatim() {
    assert_eq!(
        request_url("Fire", "Water"),
        "https://neal.fun/api/infinite-craft/pair?first=Fire&second=Water"
    );
    assert_eq!(
        request_url("SECOND", "Big Fire"),
        "https://neal.fun/api/infinite-craft/pair?first=SECOND&second=Big Fire"
    );
}

#[test]
fn response_conversions() {
    let r = Response::new("Steam".to_string(), Some("💨".to_string()), true);
    assert_eq!(r.label(), "💨 Steam");
    assert_eq!(r.glyph(), "💨");
    assert_eq!(r.emoji(), Some("💨"));
    let rec = r.clone().to_finite_item();
    assert_eq!(rec.label(), "💨 Steam ✨");
    let item: Item = r.to_item_with_parents("Fire", "Water");
    assert_eq!(item.parents(), &[("Fire".to_string(), "Water".to_string())][..]);
    let bare = Response::new("Mist".to_string(), None, false);
    assert_eq!(bare.label(), "❌ Mist");
    assert_eq!(bare.to_finite_item().emoji(), "❓️");
}

#[test]
fn failure_messages() {
    assert_eq!(ResponseFailure::NetworkError.message(), "a network error occured");
    assert_eq!(ResponseFailure::ParsingError.message(), "a parsing error occured");
    assert_eq!(ResponseFailure::CloudflareError.message(), "a cloudflare error occured");
    assert_eq!(ResponseFailure::Timeout.message(), "a timeout occured");
    assert_eq!(ResponseFailure::NotAllowed.message(), "not allowed was returned");
}

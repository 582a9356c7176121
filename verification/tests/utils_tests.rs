use linz_s3::linz_s3_filter::dataset::{Asset, Collection, Item, Link, MatchingItems};
use linz_s3::linz_s3_filter::extent::Bbox;
use linz_s3::linz_s3_filter::reporter::Reporter;
use linz_s3::linz_s3_filter::resolution::{parse_resolution, resolution_of_capture, ResolutionHint};
use linz_s3::linz_s3_filter::utils::{
    add_collection_with_spatial_filter, add_collection_without_filters, collection_urls,
    extract_urls, extract_value_before_m, get_hrefs, process_collection, resolve_asset_reference,
};

fn deg(value: f64) -> i64 {
    (value * 1e7).round() as i64
}

fn metres(hint: &ResolutionHint) -> f64 {
    match hint.decimal_text() {
        Some(text) => text.parse().unwrap(),
        None => f64::INFINITY,
    }
}

fn simple_item() -> Item {
    Item {
        id: "20201211_223832_CS2".to_string(),
        bbox: Some(Bbox::new(
            deg(172.91173669923782),
            deg(1.3438851951615003),
            deg(172.95469614953714),
            deg(1.3690476620161975),
        )),
        assets: vec![
            Asset {
                key: "visual".to_string(),
                href: "https://storage.googleapis.com/open-cogs/stac-examples/20201211_223832_CS2.tif"
                    .to_string(),
            },
            Asset { key: "thumbnail".to_string(), href: "./20201211_223832_CS2.jpg".to_string() },
        ],
        self_href: Some("https://example.com/data/simple-item.json".to_string()),
    }
}

fn collection_of(item: &Item) -> Collection {
    Collection {
        id: "an-id".to_string(),
        title: Some("Test Collection".to_string()),
        bbox: vec![item.bbox.unwrap()],
        links: vec![
            Link { href: "https://example.com/data/collection.json".to_string(), rel: "self".to_string() },
            Link { href: "https://example.com/data/simple-item.json".to_string(), rel: "item".to_string() },
        ],
        self_href: Some("https://example.com/data/collection.json".to_string()),
    }
}

#[test]
fn mod_test_extract_value_before_m() {
    let text = "100m elevation";
    let value1 = extract_value_before_m(text);
    assert_eq!(metres(&value1), 100.0);

    let text = "0.96m elevation";
    let value2 = extract_value_before_m(text);
    assert_eq!(metres(&value2), 0.96);
    let compare = metres(&value1).partial_cmp(&metres(&value2)).unwrap();
    assert_eq!(compare, std::cmp::Ordering::Greater);
    assert!(value2.is_before(&value1));
    assert!(!value1.is_before(&value2));
    let text = "no value";
    let value = extract_value_before_m(text);
    assert_eq!(value, ResolutionHint::Unknown);
    assert_eq!(metres(&value), f64::INFINITY);
}

#[test]
fn utils_test_extract_value_before_m() {
    assert_eq!(metres(&extract_value_before_m("123.45m some text")), 123.45);
    assert_eq!(extract_value_before_m("no number before m"), ResolutionHint::Unknown);
}

#[test]
fn extract_value_takes_the_first_match() {
    assert_eq!(
        extract_value_before_m("Southland 0.25m Rural Aerial Photos 10m grid"),
        ResolutionHint::Metres { whole: String::new(), fraction: "25".to_string() }
    );
    assert_eq!(
        extract_value_before_m("LiDAR 1m DEM (2020-2024)"),
        ResolutionHint::Metres { whole: "1".to_string(), fraction: String::new() }
    );
    // The `m` must be followed by white space.
    assert_eq!(extract_value_before_m("5metres"), ResolutionHint::Unknown);
    assert_eq!(extract_value_before_m("ends in 5m"), ResolutionHint::Unknown);
    // Digits that are not ASCII spell no number.
    assert_eq!(extract_value_before_m("\u{0663}m wide"), ResolutionHint::Unknown);
}

#[test]
fn parse_resolution_gives_the_shortest_form() {
    assert_eq!(
        parse_resolution("007.500"),
        ResolutionHint::Metres { whole: "7".to_string(), fraction: "5".to_string() }
    );
    assert_eq!(
        parse_resolution("0"),
        ResolutionHint::Metres { whole: String::new(), fraction: String::new() }
    );
    assert_eq!(parse_resolution("0").decimal_text(), Some("0".to_string()));
    assert_eq!(parse_resolution("0.0").decimal_text(), Some("0".to_string()));
    assert_eq!(parse_resolution("10.050").decimal_text(), Some("10.05".to_string()));
    assert_eq!(parse_resolution(""), ResolutionHint::Unknown);
    assert_eq!(parse_resolution("."), ResolutionHint::Unknown);
    assert_eq!(parse_resolution("1."), ResolutionHint::Unknown);
    assert_eq!(parse_resolution(".5"), ResolutionHint::Unknown);
    assert_eq!(parse_resolution("1.2.3"), ResolutionHint::Unknown);
    assert_eq!(parse_resolution("1e3"), ResolutionHint::Unknown);
    assert_eq!(parse_resolution("-1"), ResolutionHint::Unknown);
    assert_eq!(resolution_of_capture(&None), ResolutionHint::Unknown);
    assert_eq!(
        resolution_of_capture(&Some("12".to_string())),
        ResolutionHint::Metres { whole: "12".to_string(), fraction: String::new() }
    );
}

#[test]
fn hints_are_ordered_by_value() {
    let texts = ["0", "0.075", "0.1", "0.25", "0.96", "1", "1.5", "2", "8", "10", "10.05", "100"];
    for i in 0..texts.len() {
        for j in 0..texts.len() {
            let a = parse_resolution(texts[i]);
            let b = parse_resolution(texts[j]);
            assert_eq!(a.is_before(&b), i < j, "{} before {}", texts[i], texts[j]);
            assert_eq!(a.is_before(&b), metres(&a) < metres(&b));
        }
        assert!(parse_resolution(texts[i]).is_before(&ResolutionHint::Unknown));
        assert!(!ResolutionHint::Unknown.is_before(&parse_resolution(texts[i])));
    }
    assert!(!ResolutionHint::Unknown.is_before(&ResolutionHint::Unknown));
    assert!(!parse_resolution("1.50").is_before(&parse_resolution("01.5")));
    assert!(!parse_resolution("01.5").is_before(&parse_resolution("1.50")));
}

#[test]
fn mod_test_get_hrefs() {
    let item = Item::new("an-id");
    let items = vec![item];

    let results = vec![MatchingItems { title: "Test Collection".to_string(), items }];

    let hrefs = get_hrefs(results);
    assert_eq!(hrefs.len(), 1);
    assert_eq!(hrefs[0].1, "Test Collection");
    assert!(hrefs[0].0.is_empty());
}

#[test]
fn test_get_hrefs_sorting() {
    let item1 = Item::new("id1");
    let item2 = Item::new("id2");
    let item3 = Item::new("id3");

    let matching_items = vec![
        MatchingItems { title: "title 10m 2020".to_string(), items: vec![item1.clone()] },
        MatchingItems { title: "title 5m 2020".to_string(), items: vec![item2.clone()] },
        MatchingItems { title: "another title 10m 2020".to_string(), items: vec![item3.clone()] },
    ];

    let hrefs = get_hrefs(matching_items);

    assert_eq!(hrefs.len(), 3);
    assert_eq!(hrefs[0].1, "title 5m 2020");
    assert_eq!(hrefs[1].1, "another title 10m 2020");
    assert_eq!(hrefs[2].1, "title 10m 2020");
}

#[test]
fn utils_test_get_hrefs() {
    let item1 = simple_item();
    let item2 = simple_item();

    let matching_items = vec![
        MatchingItems { title: "10m title".to_string(), items: vec![item1.clone()] },
        MatchingItems { title: "5m title".to_string(), items: vec![item2.clone()] },
    ];

    let hrefs = get_hrefs(matching_items);
    assert_eq!(hrefs.len(), 2);
    assert_eq!(hrefs[0].1, "5m title");
    assert_eq!(hrefs[1].1, "10m title");
    assert_eq!(
        hrefs[0].0,
        vec![
            "https://storage.googleapis.com/open-cogs/stac-examples/20201211_223832_CS2.tif"
                .to_string(),
            "https://example.com/data/20201211_223832_CS2.jpg".to_string(),
        ]
    );
}

#[test]
fn get_hrefs_ranks_finest_first_and_unknown_last() {
    let titles = [
        "Zebra",
        "Otago 1m DEM",
        "Alpha",
        "Otago 0.96m Imagery ",
        "Canterbury 1m DEM",
        "Wide 100m grid",
        "Otago 1m DEM",
    ];
    let results: Vec<MatchingItems> = titles
        .iter()
        .enumerate()
        .map(|(i, t)| MatchingItems {
            title: t.to_string(),
            items: vec![Item {
                id: format!("item{}", i),
                bbox: None,
                assets: vec![Asset { key: "a".to_string(), href: format!("https://h/{}.tif", i) }],
                self_href: None,
            }],
        })
        .collect();
    let hrefs = get_hrefs(results);
    let got: Vec<(String, String)> =
        hrefs.iter().map(|g| (g.1.clone(), g.0[0].clone())).collect();
    let want: Vec<(String, String)> = vec![
        ("Otago 0.96m Imagery ", "https://h/3.tif"),
        ("Canterbury 1m DEM", "https://h/4.tif"),
        ("Otago 1m DEM", "https://h/1.tif"),
        ("Otago 1m DEM", "https://h/6.tif"),
        ("Wide 100m grid", "https://h/5.tif"),
        ("Alpha", "https://h/2.tif"),
        ("Zebra", "https://h/0.tif"),
    ]
    .into_iter()
    .map(|(a, b)| (a.to_string(), b.to_string()))
    .collect();
    assert_eq!(got, want);
    for i in 1..hrefs.len() {
        assert!(
            metres(&extract_value_before_m(&hrefs[0].1))
                <= metres(&extract_value_before_m(&hrefs[i].1))
        );
    }
}

#[test]
fn get_hrefs_of_nothing_is_nothing() {
    assert!(get_hrefs(Vec::new()).is_empty());
}

#[test]
fn resolve_asset_reference_round_trip() {
    let location = Some("s3://nz-elevation/southland/dem_1m/2193/CE08_10000_0101.json".to_string());
    assert_eq!(
        resolve_asset_reference("https://host/path/name.tif", &location),
        "https://host/path/name.tif"
    );
    assert_eq!(
        resolve_asset_reference("./name.tif", &location),
        "s3://nz-elevation/southland/dem_1m/2193/name.tif"
    );
    assert_eq!(resolve_asset_reference("../name.tif", &location), "../name.tif");
    assert_eq!(resolve_asset_reference("./a/b.tif", &Some("item.json".to_string())), "/a/b.tif");
    assert_eq!(resolve_asset_reference("./b.tif", &Some("/item.json".to_string())), "/b.tif");
    assert_eq!(resolve_asset_reference("./b.tif", &Some("dir/".to_string())), "dir/b.tif");
    assert_eq!(resolve_asset_reference("./b.tif", &None), "/b.tif");
    assert_eq!(resolve_asset_reference("./", &Some("x/y".to_string())), "x/");
    assert_eq!(resolve_asset_reference("", &location), "");
}

#[test]
fn extract_urls_keeps_item_links_in_order() {
    let collection = Collection {
        id: "c".to_string(),
        title: None,
        bbox: vec![],
        links: vec![
            Link { href: "root".to_string(), rel: "root".to_string() },
            Link { href: "b.json".to_string(), rel: "item".to_string() },
            Link { href: "child".to_string(), rel: "child".to_string() },
            Link { href: "a.json".to_string(), rel: "item".to_string() },
            Link { href: "items".to_string(), rel: "items".to_string() },
        ],
        self_href: None,
    };
    assert_eq!(extract_urls(&collection), vec!["b.json".to_string(), "a.json".to_string()]);
}

#[test]
fn mod_test_process_collection() {
    let item = simple_item();
    let collection = collection_of(&item);
    let mut reporter = Reporter::new(1);
    let urls = collection_urls(&collection, Some(deg(172.93)), Some(deg(1.35)), None, None);
    assert_eq!(urls, vec!["https://example.com/data/simple-item.json".to_string()]);
    let fetched = vec![Some(item)];
    let result = process_collection(
        &collection,
        &mut reporter,
        &fetched,
        Some(deg(172.93)),
        Some(deg(1.35)),
        None,
        None,
    );

    assert!(result.is_some());
    let matching_items = result.unwrap();
    assert_eq!(matching_items.title, "Test Collection");
    assert_eq!(matching_items.items, vec![simple_item()]);
    assert_eq!(reporter.urls_total, 1);
    assert_eq!(reporter.urls_read, 1);
    assert_eq!(reporter.collections_read, 1);
    assert_eq!(reporter.open_threads, 0);
}

#[test]
fn utils_test_process_collection() {
    let item = simple_item();
    let collection = collection_of(&item);
    let mut reporter = Reporter::new(1);
    let result = process_collection(
        &collection,
        &mut reporter,
        &vec![Some(item)],
        Some(deg(172.93)),
        Some(deg(1.35)),
        None,
        None,
    );
    assert!(result.is_some());
}

#[test]
fn process_collection_rejects_by_place() {
    let item = simple_item();
    let collection = collection_of(&item);
    let mut reporter = Reporter::new(1);
    let far = (Some(deg(-180.0)), Some(deg(-90.0)));
    assert!(collection_urls(&collection, far.0, far.1, None, None).is_empty());
    let result =
        process_collection(&collection, &mut reporter, &vec![Some(item)], far.0, far.1, None, None);
    assert_eq!(result, None);
    assert_eq!(reporter.collections_read, 1);
    assert_eq!(reporter.urls_total, 0);
    assert_eq!(reporter.urls_read, 0);
}

#[test]
fn process_collection_normalises_corners() {
    let item = simple_item();
    let collection = collection_of(&item);
    let mut reporter = Reporter::new(1);
    // Corners given from north-east to south-west.
    let result = process_collection(
        &collection,
        &mut reporter,
        &vec![None, Some(item)],
        Some(deg(173.0)),
        Some(deg(2.0)),
        Some(deg(172.0)),
        Some(deg(1.0)),
    );
    assert_eq!(result.unwrap().items.len(), 1);
    assert_eq!(reporter.urls_read, 2);
    // A second longitude without a second latitude leaves the point.
    let mut reporter = Reporter::new(1);
    let result = process_collection(
        &collection,
        &mut reporter,
        &vec![Some(simple_item())],
        Some(deg(172.0)),
        Some(deg(1.35)),
        Some(deg(173.0)),
        None,
    );
    assert_eq!(result, None);
    assert_eq!(reporter.urls_total, 0);
}

#[test]
fn spatial_filter_keeps_overlapping_items_only() {
    let inside = simple_item();
    let mut outside = simple_item();
    outside.id = "outside".to_string();
    outside.bbox = Some(Bbox::new(deg(10.0), deg(10.0), deg(11.0), deg(11.0)));
    let mut unplaced = simple_item();
    unplaced.id = "unplaced".to_string();
    unplaced.bbox = None;
    let collection = collection_of(&inside);
    let fetched = vec![Some(outside.clone()), None, Some(inside.clone()), Some(unplaced.clone())];

    let mut reporter = Reporter::new(1);
    let with_filter = add_collection_with_spatial_filter(
        &collection,
        &mut reporter,
        &fetched,
        deg(172.93),
        deg(1.35),
        deg(172.93),
        deg(1.35),
    )
    .unwrap();
    assert_eq!(with_filter.items, vec![inside.clone()]);
    assert_eq!(reporter.urls_total, 1);
    assert_eq!(reporter.urls_read, 4);
    assert_eq!(reporter.collections_read, 1);

    let mut reporter = Reporter::new(1);
    let without = add_collection_without_filters(&collection, &mut reporter, &fetched).unwrap();
    assert_eq!(without.items, vec![outside, inside, unplaced]);
    assert_eq!(without.title, "Test Collection");

    let mut reporter = Reporter::new(1);
    assert_eq!(add_collection_without_filters(&collection, &mut reporter, &vec![None, None]), None);
    assert_eq!(reporter.urls_read, 2);
    assert_eq!(reporter.collections_read, 1);
}

#[test]
fn untitled_collection_has_empty_title() {
    let item = simple_item();
    let mut collection = collection_of(&item);
    collection.title = None;
    let mut reporter = Reporter::new(1);
    let found = add_collection_without_filters(&collection, &mut reporter, &vec![Some(item)]);
    assert_eq!(found.unwrap().title, "");
}

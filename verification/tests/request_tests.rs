use linz_s3::args::{check_log_level, log_level_parser, SpatialFilter, SpatialFilterParams};
use linz_s3::download::{
    download_summary, file_name_of, process_tile_list, schedule_downloads, subfolder_name, Download,
    Schedule, TileAction,
};
use linz_s3::error::MyError;
use std::path::Path;
use linz_s3::linz_s3_filter::dataset::Collection;
use linz_s3::linz_s3_filter::extent::Bbox;
use linz_s3::linz_s3_filter::linz_bucket::{available_budget, LinzBucket};
use linz_s3::linz_s3_filter::reporter::Progress;
use linz_s3::linz_s3_filter::text::{contains, decimal_text, same_text, starts_with};
use linz_s3::search::{check_request, search_catalog, spatial_request, SpatialRequest};
use linz_s3::select::{
    choose_datasets, index_of_longest, parse_answer, read_answer, Answer, AutoSelect, Choice,
};

fn bucket() -> LinzBucket {
    let children = vec![
        Some(Collection {
            id: "a".to_string(),
            title: Some("Southland 1m DEM".to_string()),
            bbox: vec![Bbox::new(0, 0, 10, 10)],
            links: vec![],
            self_href: Some("https://b/a/collection.json".to_string()),
        }),
        Some(Collection {
            id: "b".to_string(),
            title: Some("Otago 1m DEM".to_string()),
            bbox: vec![Bbox::new(20, 20, 30, 30)],
            links: vec![],
            self_href: Some("https://b/b/collection.json".to_string()),
        }),
    ];
    LinzBucket::with_parallelism(&children, None, 1)
}

#[test]
fn params_from_coordinate_and_area() {
    let p = SpatialFilterParams::new(SpatialFilter::Coordinate {
        lat1: -45,
        lon1: 167,
        lat2_opt: Some(-44),
        lon2_opt: None,
    });
    assert_eq!(
        p,
        SpatialFilterParams {
            lat1: -45,
            lon1: 167,
            lat2_opt: Some(-44),
            lon2_opt: None,
            width_m_opt: None,
            height_m_opt: None,
        }
    );
    let p = SpatialFilterParams::new(SpatialFilter::Area {
        lat1: -45,
        lon1: 167,
        width_m: 1000,
        height_m_opt: None,
    });
    assert_eq!(
        p,
        SpatialFilterParams {
            lat1: -45,
            lon1: 167,
            lat2_opt: None,
            lon2_opt: None,
            width_m_opt: Some(1000),
            height_m_opt: None,
        }
    );
}

#[test]
fn spatial_request_refuses_dimensions_with_a_second_corner() {
    let base = SpatialFilterParams {
        lat1: 1,
        lon1: 2,
        lat2_opt: None,
        lon2_opt: None,
        width_m_opt: None,
        height_m_opt: None,
    };
    assert_eq!(
        spatial_request(&base),
        Ok(SpatialRequest::Corners { lat1: 1, lon1: 2, lat2_opt: None, lon2_opt: None })
    );
    let corners = SpatialFilterParams { lat2_opt: Some(3), lon2_opt: Some(4), ..base };
    assert_eq!(
        spatial_request(&corners),
        Ok(SpatialRequest::Corners { lat1: 1, lon1: 2, lat2_opt: Some(3), lon2_opt: Some(4) })
    );
    let square = SpatialFilterParams { width_m_opt: Some(1000), ..base };
    assert_eq!(
        spatial_request(&square),
        Ok(SpatialRequest::Area { lat: 1, lon: 2, width_m: 1000, height_m: 1000 })
    );
    let area = SpatialFilterParams { width_m_opt: Some(1000), height_m_opt: Some(500), ..base };
    assert_eq!(
        spatial_request(&area),
        Ok(SpatialRequest::Area { lat: 1, lon: 2, width_m: 1000, height_m: 500 })
    );
    // A height without a width is not looked at.
    let height_only = SpatialFilterParams { height_m_opt: Some(500), ..base };
    assert_eq!(
        spatial_request(&height_only),
        Ok(SpatialRequest::Corners { lat1: 1, lon1: 2, lat2_opt: None, lon2_opt: None })
    );
    for conflicting in [
        SpatialFilterParams { width_m_opt: Some(1), lat2_opt: Some(3), ..base },
        SpatialFilterParams { width_m_opt: Some(1), lon2_opt: Some(3), ..base },
        SpatialFilterParams { height_m_opt: Some(1), lat2_opt: Some(3), ..base },
        SpatialFilterParams { height_m_opt: Some(1), lon2_opt: Some(3), ..corners },
    ] {
        assert_eq!(spatial_request(&conflicting), Err(MyError::DimensionAndCoordinateRange));
    }
}

#[test]
fn search_without_any_filter_is_refused() {
    let mut b = bucket();
    assert_eq!(search_catalog(&mut b, None, None, None), Err(MyError::NoFilterProvided));
    assert!(b.filtered_collections.is_none());
    assert_eq!(check_request(None, None, None), Err(MyError::NoFilterProvided));
}

#[test]
fn search_with_exclusion_names_alone_is_a_search() {
    let mut b = bucket();
    let otago = vec!["Otago".to_string()];
    assert_eq!(check_request(None, None, Some(&otago)), Ok((None, None, None, None)));
    assert_eq!(search_catalog(&mut b, None, None, Some(&otago)), Ok((None, None, None, None)));
    let kept: Vec<&str> =
        b.filtered_collections.as_ref().unwrap().iter().map(|c| c.id.as_str()).collect();
    assert_eq!(kept, vec!["a"]);
    let tiles = b.get_all_tiles(&vec![vec![]]);
    assert!(tiles.iter().all(|tile| !tile.1.contains("Otago")));
    // An empty list of exclusion names is a name filter too.
    assert_eq!(search_catalog(&mut b, None, None, Some(&[])), Ok((None, None, None, None)));
    assert_eq!(b.filtered_collections.as_ref().unwrap().len(), 2);
}

#[test]
fn search_with_names_or_corners_narrows_the_session() {
    let mut b = bucket();
    let otago = vec!["Otago".to_string()];
    assert_eq!(search_catalog(&mut b, None, Some(&otago), None), Ok((None, None, None, None)));
    assert_eq!(b.filtered_collections.as_ref().unwrap().len(), 1);
    assert_eq!(b.filtered_collections.as_ref().unwrap()[0].id, "b");

    assert_eq!(
        search_catalog(&mut b, Some((5, 6, None, Some(7))), None, Some(&otago)),
        Ok((Some(5), Some(6), None, Some(7)))
    );
    assert_eq!(b.filtered_collections.as_ref().unwrap().len(), 1);
    assert_eq!(b.filtered_collections.as_ref().unwrap()[0].id, "a");
    // An empty list of names is a name filter that includes everything.
    assert_eq!(search_catalog(&mut b, None, Some(&[]), None), Ok((None, None, None, None)));
    assert_eq!(b.filtered_collections.as_ref().unwrap().len(), 2);
}

#[test]
fn error_messages() {
    assert_eq!(
        MyError::NoFilterProvided.message(),
        "Neither spatial filter nor content filter were provided. This will cause a search of the whole bucket- aborting."
    );
    assert_eq!(
        MyError::DimensionAndCoordinateRange.message(),
        "Cannot specify both dimensions (height_m, width_m) and a coordinate range. Please choose one."
    );
    assert_eq!(MyError::StacError("no href".to_string()).message(), "STAC error: no href");
    assert_eq!(MyError::SendError("closed".to_string()).message(), "STAC error: closed");
    assert_eq!(MyError::JoinError("cancelled".to_string()).message(), "Join error: cancelled");
    assert_eq!(
        MyError::JoinError("cancelled\nCaused by: x".to_string()).report(),
        "Error: Join error: cancelled\nCaused by: x"
    );
}

#[test]
fn log_levels() {
    for level in ["error", "warn", "info", "debug", "trace", "INFO", "Debug", "tRaCe"] {
        assert_eq!(log_level_parser(level), Ok(level.to_string()));
    }
    for level in ["", "verbose", "info ", "warning", "off"] {
        assert_eq!(log_level_parser(level), Err(format!("Invalid log level: {}", level)));
    }
    assert_eq!(check_log_level("X", "warn"), Ok("X".to_string()));
    assert_eq!(check_log_level("warn", "WARN"), Err("Invalid log level: warn".to_string()));
}

#[test]
fn text_searches() {
    assert!(contains("Southland LiDAR", "land L"));
    assert!(contains("Southland", ""));
    assert!(contains("", ""));
    assert!(contains("abc", "abc"));
    assert!(contains("aab", "ab"));
    assert!(!contains("abc", "abcd"));
    assert!(!contains("Southland", "southland"));
    assert!(contains("Ōtākou 1m", "tāk"));
    assert!(starts_with("./a", "./"));
    assert!(starts_with("./", "./"));
    assert!(!starts_with(".", "./"));
    assert!(!starts_with("a./", "./"));
    assert!(same_text("item", "item"));
    assert!(!same_text("item", "items"));
    assert!(!same_text("item", "Item"));
}

#[test]
fn decimal_text_of_numbers() {
    assert_eq!(decimal_text(0), "0");
    assert_eq!(decimal_text(7), "7");
    assert_eq!(decimal_text(10), "10");
    assert_eq!(decimal_text(1234567890), "1234567890");
    assert_eq!(decimal_text(usize::MAX), usize::MAX.to_string());
}

#[test]
fn file_names_and_folders() {
    assert_eq!(
        file_name_of("https://nz-elevation.s3/southland/CE08_10000_0101.tiff"),
        Some("CE08_10000_0101.tiff".to_string())
    );
    assert_eq!(file_name_of("plain.tiff"), Some("plain.tiff".to_string()));
    assert_eq!(file_name_of("dir/"), Some("dir".to_string()));
    assert_eq!(file_name_of("a/b/./"), Some("b".to_string()));
    assert_eq!(file_name_of("a/b/.."), None);
    assert_eq!(file_name_of(""), None);
    assert_eq!(file_name_of("/"), None);
    assert_eq!(file_name_of("."), None);
    for location in [
        "", "/", "//", ".", "..", "./", "../", "/.", "/..", "a", "a/", "a//", "a/.", "a/./",
        "a/./.", "a/..", "a/../", "a/b", "a//b", "a/b/", "./a", "../a", "..a", "a..", ".a", "a.",
        "...", "a/...", "/a/.b/", "https://host/dir/file.tiff", "https://host/dir/",
        "https://host", "s3://bucket/key/../x.tif", "a/\u{14d}.tiff",
    ] {
        let expected = Path::new(location).file_name().map(|n| n.to_str().unwrap().to_string());
        assert_eq!(file_name_of(location), expected, "{:?}", location);
    }
    assert_eq!(subfolder_name("Southland LiDAR 1m DEM (2020-2024)", false), "Southland LiDAR 1m DEM (2020-2024)");
    assert_eq!(subfolder_name("Otago: 0.1m / Urban?", false), "Otago 0.1m  Urban");
    assert_eq!(subfolder_name("..", false), "");
    assert_eq!(subfolder_name("aux", true), "");
    assert_eq!(subfolder_name("aux", false), "aux");
    assert_eq!(subfolder_name(&"x".repeat(300), false).len(), 255);
}

#[test]
fn process_tile_list_prints_or_downloads() {
    let tile_list = vec![
        (vec!["https://h/a/1.tiff".to_string()], "First 1m".to_string()),
        (
            vec!["https://h/b/2.tiff".to_string(), "https://h/b/3.tiff".to_string()],
            "Second: 2m".to_string(),
        ),
    ];
    assert_eq!(
        process_tile_list(&tile_list, 1, false, false),
        TileAction::PrintUrls(vec!["https://h/b/2.tiff".to_string(), "https://h/b/3.tiff".to_string()])
    );
    assert_eq!(
        process_tile_list(&tile_list, 1, true, false),
        TileAction::Download {
            subfolder: "Second 2m".to_string(),
            files: vec![
                Download {
                    url: "https://h/b/2.tiff".to_string(),
                    file_name: Some("2.tiff".to_string()),
                },
                Download {
                    url: "https://h/b/3.tiff".to_string(),
                    file_name: Some("3.tiff".to_string()),
                },
            ],
        }
    );
    assert_eq!(
        process_tile_list(&tile_list, 0, true, true),
        TileAction::Download {
            subfolder: "First 1m".to_string(),
            files: vec![Download {
                url: "https://h/a/1.tiff".to_string(),
                file_name: Some("1.tiff".to_string()),
            }],
        }
    );
}

#[test]
fn files_that_are_there_are_not_fetched_again() {
    assert_eq!(
        schedule_downloads(&vec![false, true, false, true, true], 5),
        Schedule { cache_count: 3, pending: vec![0, 2] }
    );
    // A first run fetches everything, a second run nothing.
    assert_eq!(schedule_downloads(&vec![false; 3], 3), Schedule { cache_count: 0, pending: vec![0, 1, 2] });
    assert_eq!(schedule_downloads(&vec![true; 3], 3), Schedule { cache_count: 3, pending: vec![] });
    // A file that nothing is known of is fetched.
    assert_eq!(schedule_downloads(&vec![true], 3), Schedule { cache_count: 1, pending: vec![1, 2] });
    assert_eq!(schedule_downloads(&vec![true, true], 0), Schedule { cache_count: 0, pending: vec![] });
}

#[test]
fn download_summaries() {
    assert_eq!(download_summary(2, 0, false), "2 files found in cache, 0 files downloaded");
    assert_eq!(download_summary(0, 12, false), "0 files found in cache, 12 files downloaded");
    assert_eq!(download_summary(3, 4, true), "Download process interrupted by user");
}

#[test]
fn datasets_are_chosen_as_asked() {
    let group = |n: usize, title: &str| {
        ((0..n).map(|i| format!("https://h/{}.tiff", i)).collect::<Vec<String>>(), title.to_string())
    };
    let none = AutoSelect { by_first_index: false, by_index: None, by_all: false, by_size: false };
    let several = vec![group(2, "a"), group(5, "b"), group(1, "c"), group(5, "d")];
    assert_eq!(index_of_longest(&several), 1);
    assert_eq!(index_of_longest(&vec![group(0, "a"), group(0, "b")]), 0);

    assert_eq!(choose_datasets(&Vec::new(), &AutoSelect { by_all: true, ..none }), Choice::NoDatasets);
    assert_eq!(
        choose_datasets(&vec![group(3, "only")], &AutoSelect { by_index: Some(9), ..none }),
        Choice::Single
    );
    assert_eq!(choose_datasets(&several, &none), Choice::Ask);
    assert_eq!(
        choose_datasets(&several, &AutoSelect { by_first_index: true, ..none }),
        Choice::ByIndex(0)
    );
    assert_eq!(choose_datasets(&several, &AutoSelect { by_index: Some(3), ..none }), Choice::ByIndex(3));
    assert_eq!(
        choose_datasets(&several, &AutoSelect { by_index: Some(4), ..none }),
        Choice::OutOfBounds { index: 4, available: 4 }
    );
    assert_eq!(
        choose_datasets(&several, &AutoSelect { by_index: Some(usize::MAX), ..none }),
        Choice::OutOfBounds { index: usize::MAX, available: 4 }
    );
    assert_eq!(choose_datasets(&several, &AutoSelect { by_size: true, ..none }), Choice::BySize(1));
    assert_eq!(choose_datasets(&several, &AutoSelect { by_all: true, ..none }), Choice::All);
}

#[test]
fn progress_line_text() {
    let progress = Progress {
        collections_read: 3,
        collections_total: 12,
        urls_read: 140,
        urls_total: 2051,
        open_threads: 8,
    };
    assert_eq!(
        progress.line(),
        "Reporting: 3/12 Collections read, 140/2051 URLS read, Open threads:8"
    );
}

#[test]
fn budget_of_this_machine() {
    let one = available_budget(None);
    assert!(one >= 1);
    assert_eq!(available_budget(Some(1)), one);
    assert_eq!(available_budget(Some(4)), 4 * one);
    assert_eq!(available_budget(Some(0)), 1);
    assert!(available_budget(Some(7)) >= 7);
}

#[test]
fn answers_to_the_prompt() {
    assert_eq!(parse_answer("0\n", 3), Answer::Pick(0));
    assert_eq!(parse_answer("  2 \r\n", 3), Answer::Pick(2));
    assert_eq!(parse_answer("+1\n", 3), Answer::Pick(1));
    assert_eq!(parse_answer("007\n", 8), Answer::Pick(7));
    assert_eq!(parse_answer("3\n", 3), Answer::Invalid);
    assert_eq!(parse_answer("cancel\n", 3), Answer::Cancel);
    assert_eq!(parse_answer(" CANCEL ", 3), Answer::Cancel);
    assert_eq!(parse_answer("CaNcEl", 0), Answer::Cancel);
    for invalid in ["", "\n", "-1", "1.5", "one", "1 2", "+", "++1", "cancel!", "c\u{e1}ncel", "\u{0661}"] {
        assert_eq!(parse_answer(invalid, 100), Answer::Invalid, "{:?}", invalid);
    }
    // White space counts where nothing has taken it away.
    assert_eq!(read_answer("1", 2), Answer::Pick(1));
    assert_eq!(read_answer(" 1", 2), Answer::Invalid);
    assert_eq!(read_answer("cancel ", 2), Answer::Invalid);
    // A number beyond a machine word is no position.
    let max = usize::MAX.to_string();
    assert_eq!(read_answer(&max, usize::MAX), Answer::Invalid);
    assert_eq!(read_answer(&format!("{}", usize::MAX - 1), usize::MAX), Answer::Pick(usize::MAX - 1));
    assert_eq!(read_answer(&format!("{}0", max), usize::MAX), Answer::Invalid);
    assert_eq!(read_answer("18446744073709551616", usize::MAX), Answer::Invalid);
    assert_eq!(read_answer("99999999999999999999999999", usize::MAX), Answer::Invalid);
}

use map_gallery::cache::DirectoryCache;
use map_gallery::cache::FetchError;
use map_gallery::directory::{ListedFile, Maps};
use map_gallery::names::{parse_name, parse_u32_str, u32_decimal, FileKind};
use map_gallery::route::Route;
use map_gallery::views::{
    DetailView, GalleryView, GenOpts, MapData, MapKind, MapProperties, Message, VelorenMap,
    VelorenMaps,
};

fn file(name: &str, url: &str) -> ListedFile {
    ListedFile { name: name.to_string(), download_url: url.to_string() }
}

fn raw(name: &str) -> String {
    format!("https://raw.githubusercontent.com/IsseW/veloren_maps/main/{name}")
}

#[test]
fn pairs_ron_and_png_for_one_seed() {
    let files = vec![file("7.ron", &raw("7.ron")), file("7.png", &raw("7.png"))];
    let maps = Maps::build(&files);
    assert_eq!(maps.maps.len(), 1);
    assert_eq!(maps.maps[0].seed, 7);
    assert_eq!(maps.maps[0].data_url.as_str(), raw("7.ron").as_str());
    assert_eq!(
        maps.maps[0].image_url.as_str(),
        "https://media.githubusercontent.com//media/IsseW/veloren_maps/main/7.png"
    );
}

#[test]
fn unpaired_seeds_are_dropped() {
    let files = vec![file("7.ron", &raw("7.ron")), file("9.png", &raw("9.png"))];
    let maps = Maps::build(&files);
    assert_eq!(maps.maps.len(), 0);
}

#[test]
fn malformed_names_are_ignored() {
    let files = vec![
        file("README.md", &raw("README.md")),
        file("7.ron", &raw("7.ron")),
        file("noextension", &raw("noextension")),
        file("7x.ron", &raw("7x.ron")),
        file(".ron", &raw(".ron")),
        file("7.txt", &raw("7.txt")),
        file("7.png", &raw("7.png")),
        file("8.tar.png", &raw("8.tar.png")),
    ];
    let maps = Maps::build(&files);
    assert_eq!(maps.maps.len(), 1);
    assert_eq!(maps.maps[0].seed, 7);
}

#[test]
fn entries_come_out_in_ascending_seed_order() {
    let files = vec![
        file("9.ron", &raw("9.ron")),
        file("3.png", &raw("3.png")),
        file("7.ron", &raw("7.ron")),
        file("9.png", &raw("9.png")),
        file("3.ron", &raw("3.ron")),
        file("7.png", &raw("7.png")),
    ];
    let maps = Maps::build(&files);
    let seeds: Vec<u32> = maps.maps.iter().map(|m| m.seed).collect();
    assert_eq!(seeds, vec![3, 7, 9]);
}

#[test]
fn later_files_overwrite_earlier_ones() {
    let files = vec![
        file("7.ron", &raw("old/7.ron")),
        file("7.png", &raw("7.png")),
        file("7.ron", &raw("new/7.ron")),
    ];
    let maps = Maps::build(&files);
    assert_eq!(maps.maps.len(), 1);
    assert_eq!(maps.maps[0].data_url.as_str(), raw("new/7.ron").as_str());
}

#[test]
fn empty_configuration_url_drops_the_entry() {
    let files = vec![file("7.ron", ""), file("7.png", &raw("7.png"))];
    let maps = Maps::build(&files);
    assert_eq!(maps.maps.len(), 0);
}

#[test]
fn find_hits_and_misses() {
    let files = vec![file("5.ron", &raw("5.ron")), file("5.png", &raw("5.png"))];
    let maps = Maps::build(&files);
    assert!(maps.find(5).is_some());
    assert_eq!(maps.find(5).unwrap().seed, 5);
    assert!(maps.find(6).is_none());
}

#[test]
fn parse_name_reads_seed_and_kind() {
    assert_eq!(parse_name("123.ron"), Some((123, FileKind::Ron)));
    assert_eq!(parse_name("0.png"), Some((0, FileKind::Png)));
    assert_eq!(parse_name("+7.png"), Some((7, FileKind::Png)));
    assert_eq!(parse_name("00012.ron"), Some((12, FileKind::Ron)));
    assert_eq!(parse_name("4294967295.x"), Some((u32::MAX, FileKind::Other)));
    assert_eq!(parse_name("7."), Some((7, FileKind::Other)));
    assert_eq!(parse_name("7.tar.png"), Some((7, FileKind::Other)));
}

#[test]
fn parse_name_rejects_what_is_not_a_seed() {
    assert_eq!(parse_name("4294967296.ron"), None);
    assert_eq!(parse_name("README.md"), None);
    assert_eq!(parse_name("noextension"), None);
    assert_eq!(parse_name("7x.ron"), None);
    assert_eq!(parse_name(".ron"), None);
    assert_eq!(parse_name(""), None);
    assert_eq!(parse_name("-7.ron"), None);
}

#[test]
fn parse_u32_matches_std() {
    for s in ["0", "42", "+42", "007", "4294967295", "4294967296", "", "+", "1e3", " 1"] {
        assert_eq!(parse_u32_str(s), s.parse::<u32>().ok(), "input {s:?}");
    }
}

#[test]
fn decimal_rendering_matches_std() {
    for n in [0u32, 1, 9, 10, 99, 100, 12345, u32::MAX] {
        assert_eq!(u32_decimal(n).as_str(), n.to_string().as_str());
    }
}

#[test]
fn cache_is_set_once() {
    let mut cache = DirectoryCache::new();
    assert!(cache.get().is_none());
    let first = Maps::build(&vec![file("1.ron", &raw("1.ron")), file("1.png", &raw("1.png"))]);
    assert!(cache.install(Ok(first)).is_ok());
    assert_eq!(cache.get().unwrap().maps[0].seed, 1);
    let second = Maps::build(&vec![file("2.ron", &raw("2.ron")), file("2.png", &raw("2.png"))]);
    assert!(cache.install(Ok(second)).is_ok());
    // the slot keeps the first delivered directory
    assert_eq!(cache.get().unwrap().maps[0].seed, 1);
    assert_eq!(cache.get().unwrap().maps.len(), 1);
}

#[test]
fn failed_fetch_leaves_cache_unset_and_retry_works() {
    let mut cache = DirectoryCache::new();
    let r = cache.install(Err(FetchError { message: "connection reset".to_string() }));
    assert!(r.is_err());
    assert_eq!(r.unwrap_err().message.as_str(), "connection reset");
    assert!(cache.get().is_none());
    let maps = Maps::build(&vec![file("4.ron", &raw("4.ron")), file("4.png", &raw("4.png"))]);
    assert!(cache.install(Ok(maps)).is_ok());
    assert!(cache.get().is_some());
}

#[test]
fn gallery_states() {
    let mut view = VelorenMaps::create();
    assert_eq!(view.view_step(), GalleryView::FetchDirectory);
    assert!(view.directory().is_none());
    let mut failed = VelorenMaps::create();
    failed.update(Err(FetchError { message: "500".to_string() }));
    assert_eq!(failed.view_step(), GalleryView::DirectoryFailed);
    let maps = Maps::build(&vec![file("3.ron", &raw("3.ron")), file("3.png", &raw("3.png"))]);
    assert!(view.update(Ok(maps)));
    assert_eq!(view.view_step(), GalleryView::Entries);
    assert_eq!(view.directory().unwrap().maps[0].seed, 3);
}

fn sample_data(seed: u32) -> MapData {
    MapData {
        seed,
        gen_opts: GenOpts {
            x_lg: 10,
            y_lg: 10,
            scale_bits: 0x3f800000,
            map_kind: MapKind::Circle,
            erosion_quality_bits: 0x3f000000,
        },
    }
}

#[test]
fn detail_view_walks_its_states() {
    let mut view = VelorenMap::create();
    let props = MapProperties { seed: 3 };
    assert_eq!(view.view_step(&props), DetailView::FetchDirectory);
    let maps = Maps::build(&vec![file("3.ron", &raw("3.ron")), file("3.png", &raw("3.png"))]);
    assert!(view.update(Message::Maps(Ok(maps))));
    assert_eq!(view.view_step(&props), DetailView::FetchConfig);
    assert!(view.update(Message::Data(Ok(sample_data(3)))));
    assert_eq!(view.view_step(&props), DetailView::Ready);
}

#[test]
fn absent_seed_is_not_found_rather_than_an_error() {
    let mut view = VelorenMap::create();
    let maps = Maps::build(&vec![file("3.ron", &raw("3.ron")), file("3.png", &raw("3.png"))]);
    view.update(Message::Maps(Ok(maps)));
    let missing = MapProperties { seed: 9 };
    assert_eq!(view.view_step(&missing), DetailView::NotFound);
    // even a delivered configuration error does not turn absence into a failure
    view.update(Message::Data(Err(FetchError { message: "decode".to_string() })));
    assert_eq!(view.view_step(&missing), DetailView::NotFound);
}

#[test]
fn detail_view_failure_states() {
    let mut dir_failed = VelorenMap::create();
    dir_failed.update(Message::Maps(Err(FetchError { message: "404".to_string() })));
    assert_eq!(dir_failed.view_step(&MapProperties { seed: 3 }), DetailView::DirectoryFailed);

    let mut cfg_failed = VelorenMap::create();
    let maps = Maps::build(&vec![file("3.ron", &raw("3.ron")), file("3.png", &raw("3.png"))]);
    cfg_failed.update(Message::Maps(Ok(maps)));
    cfg_failed.update(Message::Data(Err(FetchError { message: "bad payload".to_string() })));
    assert_eq!(cfg_failed.view_step(&MapProperties { seed: 3 }), DetailView::ConfigFailed);
}

#[test]
fn routes_format_and_parse_back() {
    let routes = [
        (Route::Home, "/"),
        (Route::Projects, "/projects"),
        (Route::About, "/about"),
        (Route::VelorenMaps, "/maps"),
        (Route::VelorenMap { seed: 123 }, "/maps/123"),
        (Route::VelorenMap { seed: u32::MAX }, "/maps/4294967295"),
        (Route::NotFound, "/404"),
    ];
    for (route, path) in routes {
        assert_eq!(route.to_path().as_str(), path);
        assert_eq!(Route::from_path(path), route);
    }
}

#[test]
fn unknown_paths_fall_back_to_not_found() {
    for p in ["", "/unknown", "/maps/", "/maps/abc", "/maps/-1", "/maps/4294967296", "/Maps"] {
        assert_eq!(Route::from_path(p), Route::NotFound);
    }
}

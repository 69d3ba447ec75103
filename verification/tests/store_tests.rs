use trackview::Rgba;
use trackview::TrackPoint;
use trackview::parse::TrackError;
use trackview::store::TrackStore;

fn line(s: &str) -> Vec<u8> {
    s.as_bytes().to_vec()
}

const GREEN: Rgba = Rgba { r: 0, g: 255, b: 0, a: 255 };
const PINK: Rgba = Rgba { r: 255, g: 105, b: 180, a: 255 };

#[test]
fn sources_keep_load_order_and_file_order() {
    let mut store = TrackStore::new();
    store
        .load_source(
            String::from("tracks"),
            GREEN,
            &vec![line("2"), line("1 2 3"), line("4 5 6")],
        )
        .unwrap();
    store
        .load_source(String::from("tracks2"), PINK, &vec![line("1"), line("7 8 9")])
        .unwrap();

    assert_eq!(store.source_count(), 2);
    assert_eq!(store.sources[0].name, "tracks");
    assert_eq!(store.sources[0].color, GREEN);
    assert_eq!(
        store.sources[0].points,
        vec![
            TrackPoint { x: 1000, y: 2000, z: 3000 },
            TrackPoint { x: 4000, y: 5000, z: 6000 },
        ]
    );
    assert_eq!(store.sources[1].name, "tracks2");
    assert_eq!(store.sources[1].points, vec![TrackPoint { x: 7000, y: 8000, z: 9000 }]);
}

#[test]
fn failed_load_leaves_the_store_unchanged() {
    let mut store = TrackStore::new();
    store
        .load_source(String::from("good"), GREEN, &vec![line("1"), line("1 1 1")])
        .unwrap();
    let err = store
        .load_source(String::from("bad"), PINK, &vec![line("1"), line("oops")])
        .unwrap_err();
    assert_eq!(err, TrackError::FormatError { line: 2, content: line("oops") });
    assert_eq!(store.source_count(), 1);
    assert_eq!(store.sources[0].name, "good");
}

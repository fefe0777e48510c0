//! The storage-index types: remote paths, layer metadata merging, and the
//! assembly of one index-part record.

use jsonlog::index::{
    IndexLayerMetadata, IndexPart, LayerFileMetadata, LayerFileName, Lsn, RemotePath,
    separate_paths_and_metadata, LATEST_VERSION,
};
use jsonlog::routes::bad_duration;

#[test]
fn remote_path_round_trip() {
    let p = RemotePath::new("tenants/1/timelines/2/layer");
    assert_eq!(p.to_local_path("/srv/data"), "/srv/data/tenants/1/timelines/2/layer");
    assert_eq!(p.to_local_path("/srv/data/"), "/srv/data/tenants/1/timelines/2/layer");
    assert_eq!(p.to_local_path(""), "tenants/1/timelines/2/layer");
    // An empty relative path adds nothing.
    assert_eq!(RemotePath::new("").to_local_path("/srv/data"), "/srv/data");
}

#[test]
fn strip_base_path_cases() {
    let ok = RemotePath::strip_base_path("/srv/data", "/srv/data/tenants/1").expect("under base");
    assert_eq!(ok.0, "tenants/1");
    let same = RemotePath::strip_base_path("/srv/data", "/srv/data").expect("equal");
    assert_eq!(same.0, "");
    // A base that itself ends in the separator is a prefix all the same.
    let sep = RemotePath::strip_base_path("/srv/data/", "/srv/data/tenants/1").expect("under base");
    assert_eq!(sep.0, "tenants/1");
    // The empty base is a prefix of everything.
    let all = RemotePath::strip_base_path("", "tenants/1").expect("empty base");
    assert_eq!(all.0, "tenants/1");
    let err = RemotePath::strip_base_path("/srv/data", "/elsewhere/x").expect_err("not under base");
    assert_eq!(err.base, "/srv/data");
    assert_eq!(err.full, "/elsewhere/x");
    assert!(RemotePath::strip_base_path("/srv/data", "/srv/database/x").is_err());
}

#[test]
fn strip_then_join_names_the_same_path() {
    let cases = vec![
        ("/srv/data", "/srv/data/tenants/1"),
        ("/srv/data/", "/srv/data/tenants/1"),
        ("", "tenants/1"),
        ("/srv/data", "/srv/data"),
        ("/srv/data", "/srv/data/"),
    ];
    for (base, full) in cases {
        let rel = RemotePath::strip_base_path(base, full).expect("under base");
        let back = rel.to_local_path(base);
        // Equal up to one trailing separator, which names no path.
        assert_eq!(back.trim_end_matches('/'), full.trim_end_matches('/'), "base={base} full={full}");
    }
}

#[test]
fn layer_metadata_merge() {
    let mut m = LayerFileMetadata::missing();
    assert_eq!(m.file_size(), None);
    m.merge(&LayerFileMetadata::new(25600000));
    assert_eq!(m.file_size(), Some(25600000));
    m.merge(&LayerFileMetadata::missing());
    assert_eq!(m.file_size(), Some(25600000));
    m.merge(&LayerFileMetadata::new(9007199254741001));
    assert_eq!(m.file_size(), Some(9007199254741001));
}

#[test]
fn metadata_conversions() {
    let m = LayerFileMetadata::new(14);
    let wire = IndexLayerMetadata::from_metadata(&m);
    assert_eq!(wire.file_size, Some(14));
    let back = LayerFileMetadata::from_index(&wire);
    assert_eq!(back, m);
}

#[test]
fn index_part_new_splits_layers() {
    let input = vec![
        (LayerFileName("not_a_real_layer_but_adding_coverage".to_string()), LayerFileMetadata::new(25600000)),
        (LayerFileName("another_layer".to_string()), LayerFileMetadata::missing()),
    ];
    let part = IndexPart::new(input, Lsn(0x16960E8), vec![113, 11, 159, 210]);
    assert_eq!(part.version, LATEST_VERSION);
    assert_eq!(part.missing_layers, Some(vec![]));
    assert_eq!(part.disk_consistent_lsn, Lsn(0x16960E8));
    assert_eq!(part.metadata_bytes, vec![113, 11, 159, 210]);
    assert_eq!(part.timeline_layers.len(), 2);
    assert_eq!(part.timeline_layers[0].0, "not_a_real_layer_but_adding_coverage");
    assert_eq!(part.layer_metadata[0].1.file_size, Some(25600000));
    assert_eq!(part.layer_metadata[1].0 .0, "another_layer");
    assert_eq!(part.layer_metadata[1].1.file_size, None);
}

#[test]
fn separate_appends() {
    let input = vec![(LayerFileName("l1".to_string()), LayerFileMetadata::new(1))];
    let mut names = vec![LayerFileName("l0".to_string())];
    let mut metadata = vec![];
    separate_paths_and_metadata(&input, &mut names, &mut metadata);
    assert_eq!(names.len(), 2);
    assert_eq!(names[0].0, "l0");
    assert_eq!(names[1].0, "l1");
    assert_eq!(metadata.len(), 1);
    assert_eq!(metadata[0].0 .0, "l1");
}

#[test]
fn bad_duration_message() {
    assert_eq!(
        bad_duration("gc_period", "1 fortnight"),
        format!("Cannot parse `{}` duration {:?}", "gc_period", "1 fortnight"),
    );
    assert_eq!(bad_duration("pitr", "x\"y"), "Cannot parse `pitr` duration \"x\\\"y\"");
}

use jmfm::config::Config;
use jmfm::id_count::IdCount;
use jmfm::map::Data;
use jmfm::map::MapEntry;

#[test]
fn id_count_data_from_keeps_the_id() {
    let data = jmfm::id_count::Data::from(41);
    assert_eq!(data.map, 41);
    let rec = IdCount { data_version: 2, data: jmfm::id_count::Data::from(7) };
    assert_eq!(rec.data.map, 7);
    assert_eq!(rec.data_version, 2);
}

#[test]
fn id_counts_record_is_plain_data() {
    let rec = jmfm::id_counts::IdCounts { data_version: 3, data: jmfm::id_counts::Data { map: 9 } };
    assert_eq!(rec.data.map, 9);
    assert_eq!(rec.data_version, 3);
}

#[test]
fn map_entry_wraps_its_payload() {
    let payload = Data::from(vec![5i8, 6, 7]);
    let other = Data::from(vec![5i8, 6, 7]);
    let entry = MapEntry::new(11, payload);
    let again = MapEntry::new(11, other.clone());
    assert_eq!(entry, again);
    assert_ne!(entry, MapEntry::new(12, other));
}

#[test]
fn config_holds_palette_inputs() {
    let cfg = Config {
        data_version: 3578,
        multipliers: vec![180, 220, 255, 135],
        colors: vec![[127, 178, 56], [247, 233, 163]],
    };
    assert_eq!(cfg.multipliers.len(), 4);
    assert_eq!(cfg.colors[1], [247, 233, 163]);
}

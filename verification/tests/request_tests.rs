use flate2::write::GzEncoder;
use flate2::Compression;
use lttp_autotimer::request::{fetch_metadata_for, meta_json_uri_for, metadata_header, permalink_for, MetaData, MetadataError};
use std::io::Write;

fn meta() -> MetaData {
    MetaData {
        goal: "ganon".to_string(),
        mode: "open".to_string(),
        build: "2021-05-04".to_string(),
        logic: "NoGlitches".to_string(),
        worlds: 1,
        weapons: "randomized".to_string(),
        rom_mode: "NoGlitches".to_string(),
        spoilers: "off".to_string(),
        world_id: 1,
        item_pool: "normal".to_string(),
        tournament: true,
        accessibility: "items".to_string(),
        dungeon_items: "standard".to_string(),
        item_placement: "advanced".to_string(),
        allow_quickswap: false,
        item_functionality: "normal".to_string(),
        enemizer_pot_shuffle: "off".to_string(),
        enemizer_boss_shuffle: "none".to_string(),
        enemizer_enemy_damage: "default".to_string(),
        enemizer_enemy_health: "default".to_string(),
        enemizer_enemy_shuffle: "none".to_string(),
        entry_crystals_ganon: "7".to_string(),
        entry_crystals_tower: "7".to_string(),
        name: Some("Weekly\nrace".to_string()),
        notes: None,
    }
}

#[test]
fn seed_links() {
    assert_eq!(permalink_for("abc123"), "https://alttpr.com/en/h/abc123");
    assert_eq!(meta_json_uri_for("abc123"), "https://alttpr-patch-data.s3.us-east-2.amazonaws.com/abc123.json");
}

#[test]
fn metadata_is_gunzipped() {
    let mut encoder = GzEncoder::new(Vec::new(), Compression::default());
    encoder.write_all(b"{\"spoiler\":{}}").unwrap();
    let body = encoder.finish().unwrap();
    let (permalink, text) = fetch_metadata_for("seed", &body).unwrap();
    assert_eq!(permalink, "https://alttpr.com/en/h/seed");
    assert_eq!(text, "{\"spoiler\":{}}");
}

#[test]
fn metadata_that_is_not_gzip_is_an_error() {
    assert_eq!(fetch_metadata_for("seed", &b"plain".to_vec()), Err(MetadataError::NotGzipText));
}

#[test]
fn header_without_metadata() {
    let header = metadata_header("0.1.0", "https://alttpr.com/en/h/x", &None, &vec![30, 10, 20, 41]);
    assert_eq!(
        header,
        "# logger_version 0.1.0\n# permalink https://alttpr.com/en/h/x\n# read_time_ms_avg 25\n# read_time_ms_mean 30\n"
    );
}

#[test]
fn header_with_metadata() {
    let header = metadata_header("1", "p", &Some(meta()), &vec![5]);
    let lines: Vec<&str> = header.lines().collect();
    assert_eq!(lines.len(), 29);
    assert_eq!(lines[2], "# read_time_ms_avg 5");
    assert_eq!(lines[3], "# read_time_ms_mean 5");
    assert_eq!(lines[4], "# rom_build 2021-05-04");
    assert_eq!(lines[5], "# name Weekly race");
    assert_eq!(lines[13], "# tournament true");
    assert_eq!(lines[25], "# allow_quickswap true");
    assert_eq!(lines[26], "# worlds 1");
    assert_eq!(lines[28], "# notes None");
}

use rate_mirrors::freshness::{
    calculate_freshness_score, extract_build_date, parse_db_bytes, parse_tar, PackageBuildDates,
};

fn desc(stamp: &str) -> Vec<u8> {
    format!("%FILENAME%\nx.pkg\n%BUILDDATE%\n{}\nrest", stamp).into_bytes()
}

#[test]
fn build_date_follows_the_marker() {
    assert_eq!(extract_build_date(&desc("1700000000")), Some(1700000000));
    assert_eq!(extract_build_date(&desc("  1700000000  ")), Some(1700000000));
    assert_eq!(extract_build_date(&desc("soon")), None);
    assert_eq!(extract_build_date(b"no marker here"), None);
}

#[test]
fn freshness_scores_newer_and_equal() {
    let mut mirror = PackageBuildDates { packages: Vec::new() };
    mirror.upsert("newer".to_string(), 200);
    mirror.upsert("equal".to_string(), 100);
    mirror.upsert("older".to_string(), 50);
    let mut reference = PackageBuildDates { packages: Vec::new() };
    reference.upsert("newer".to_string(), 100);
    reference.upsert("equal".to_string(), 100);
    reference.upsert("older".to_string(), 100);
    reference.upsert("missing".to_string(), 100);
    let (points, compared) = calculate_freshness_score(&mirror, &reference);
    assert_eq!(compared, 3);
    assert_eq!(points, 3); // 2 for newer, 1 for equal, 0 for older
}

#[test]
fn upsert_overwrites_by_name() {
    let mut db = PackageBuildDates { packages: Vec::new() };
    db.upsert("pkg".to_string(), 1);
    db.upsert("pkg".to_string(), 2);
    assert_eq!(db.get("pkg"), Some(2));
    assert_eq!(db.packages.len(), 1);
    assert_eq!(db.get("other"), None);
}

fn tar_with_desc(pkg_dir: &str, stamp: i64) -> Vec<u8> {
    let mut builder = tar::Builder::new(Vec::new());
    let contents = format!("%BUILDDATE%\n{}\n", stamp).into_bytes();
    let mut header = tar::Header::new_gnu();
    header.set_size(contents.len() as u64);
    header.set_cksum();
    builder
        .append_data(
            &mut header,
            format!("{}/desc", pkg_dir),
            contents.as_slice(),
        )
        .unwrap();
    builder.into_inner().unwrap()
}

#[test]
fn parse_tar_reads_desc_entries() {
    let bytes = tar_with_desc("fancy-1.0-1", 1700000001);
    let db = parse_tar(&bytes).expect("a database");
    assert_eq!(db.get("fancy-1.0-1"), Some(1700000001));
    assert_eq!(db.get("other"), None);
}

#[test]
fn parse_db_bytes_handles_compressed_archives() {
    let bytes = tar_with_desc("pkg-2.0-1", 1690000000);
    // raw tar
    let db = parse_db_bytes(&bytes).expect("raw tar");
    assert_eq!(db.get("pkg-2.0-1"), Some(1690000000));
    // gzip-compressed tar
    let mut enc = flate2::write::GzEncoder::new(Vec::new(), flate2::Compression::default());
    std::io::Write::write_all(&mut enc, &bytes).unwrap();
    let gz = enc.finish().unwrap();
    let db = parse_db_bytes(&gz).expect("gzip tar");
    assert_eq!(db.get("pkg-2.0-1"), Some(1690000000));
    // zstd-compressed tar
    let zst = zstd::stream::encode_all(bytes.as_slice(), 0).unwrap();
    let db = parse_db_bytes(&zst).expect("zstd tar");
    assert_eq!(db.get("pkg-2.0-1"), Some(1690000000));
}

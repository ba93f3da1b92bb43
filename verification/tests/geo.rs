use std::io::Write;

use flate2::write::GzEncoder;
use uip::geo::{
    database_file, download_url, extract_mmdb, facts_from_records, geo_lookup, needs_download,
    next_check_after, AsnRecord, CityRecord,
};
use uip::net::parse_ip;

fn tarball(files: &[(&str, &[u8])]) -> Vec<u8> {
    let mut tar = tar::Builder::new(Vec::new());
    for (name, data) in files {
        let mut header = tar::Header::new_gnu();
        header.set_size(data.len() as u64);
        header.set_mode(0o644);
        header.set_cksum();
        tar.append_data(&mut header, name, *data).unwrap();
    }
    let inner = tar.into_inner().unwrap();
    let mut gz = GzEncoder::new(Vec::new(), flate2::Compression::fast());
    gz.write_all(&inner).unwrap();
    gz.finish().unwrap()
}

#[test]
fn the_database_is_picked_out_of_the_archive() {
    let gz = tarball(&[
        ("GeoLite2-City_20260917/COPYRIGHT.txt", b"(c) MaxMind"),
        ("GeoLite2-City_20260917/GeoLite2-City.mmdb", b"pretend this is a database"),
    ]);
    assert_eq!(extract_mmdb(&gz, "GeoLite2-City").unwrap(), b"pretend this is a database");
}

#[test]
fn an_archive_without_a_database_is_an_error() {
    let gz = tarball(&[("GeoLite2-ASN_20260917/README.txt", b"nothing useful")]);
    let err = extract_mmdb(&gz, "GeoLite2-ASN").unwrap_err();
    assert!(err.contains("kein .mmdb"), "{err}");
    assert_eq!(err, "GeoLite2-ASN: kein .mmdb im Archiv");
}

#[test]
fn a_broken_archive_is_an_error_too() {
    assert!(extract_mmdb(b"not gzip at all", "GeoLite2-City").is_err());
}

#[test]
fn the_download_url_follows_the_documented_shape() {
    assert_eq!(
        download_url("GeoLite2-City"),
        "https://download.maxmind.com/geoip/databases/GeoLite2-City/download?suffix=tar.gz"
    );
    assert_eq!(database_file("GeoLite2-ASN"), "GeoLite2-ASN.mmdb");
}

#[test]
fn a_download_is_due_unless_the_local_copy_is_as_new() {
    assert!(!needs_download(Some(100), Some(100)));
    assert!(!needs_download(Some(90), Some(100)));
    assert!(needs_download(Some(110), Some(100)));
    assert!(needs_download(None, Some(100)));
    assert!(needs_download(Some(100), None));
    assert_eq!(next_check_after(true), 3600);
    assert_eq!(next_check_after(false), 86_400);
}

#[test]
fn records_become_facts() {
    let city = CityRecord {
        country: Some("DE".into()),
        city: Some("Berlin".into()),
        lat: Some(52.52f64.to_bits()),
        lon: Some(13.40f64.to_bits()),
    };
    let asn = AsnRecord { number: Some(3320), organization: Some("Deutsche Telekom AG".into()) };
    let f = facts_from_records(Some(city), Some(asn));
    assert_eq!(f.geo_country.as_deref(), Some("DE"));
    assert_eq!(f.geo_city.as_deref(), Some("Berlin"));
    assert_eq!(f.geo_lat.map(f64::from_bits), Some(52.52));
    assert_eq!(f.asn_number, Some(3320));
    assert_eq!(f.asn_name.as_deref(), Some("Deutsche Telekom AG"));
    assert!(facts_from_records(None, None).is_empty());
}

#[test]
fn a_missing_database_is_not_a_failure() {
    let ip = parse_ip("8.8.8.8").unwrap();
    assert!(geo_lookup(None, None, ip).is_empty());
    let junk = b"not a database".to_vec();
    assert!(geo_lookup(Some(&junk), Some(&junk), ip).is_empty());
}

#[test]
fn a_damaged_tail_after_the_database_does_not_spoil_it() {
    let mut tar = tar::Builder::new(Vec::new());
    let data: &[u8] = b"pretend this is a database";
    let mut header = tar::Header::new_gnu();
    header.set_size(data.len() as u64);
    header.set_mode(0o644);
    header.set_cksum();
    tar.append_data(&mut header, "GeoLite2-ASN_20260917/GeoLite2-ASN.mmdb", data).unwrap();
    let mut inner = tar.into_inner().unwrap();
    inner.extend(std::iter::repeat(b'x').take(512));
    let mut gz = GzEncoder::new(Vec::new(), flate2::Compression::fast());
    gz.write_all(&inner).unwrap();
    let gz = gz.finish().unwrap();
    assert_eq!(extract_mmdb(&gz, "GeoLite2-ASN").unwrap(), data);
    let mut broken_first = vec![b'x'; 512];
    broken_first.extend(tarball(&[("a/GeoLite2-ASN.mmdb", data)]));
    assert!(extract_mmdb(&broken_first, "GeoLite2-ASN").is_err());
}

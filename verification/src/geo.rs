//! Location and network operator of an address, from the GeoLite2
//! databases (read with the `maxminddb` crate), and the databases' own
//! upkeep: where MaxMind offers them, when a download is due, and which
//! file of a downloaded archive is the database.
use std::io::Read;
use vstd::prelude::*;
use crate::enrich::{no_facts, FactsView, IpFacts};
use crate::net::IpAddress;
use crate::text::{append_chars, chars_of, string_from};
use crate::types::ov;

verus! {

// ---------------------------------------------------------------------------
// Reading the databases
// ---------------------------------------------------------------------------

/// What the city database holds for an address: the country's ISO code,
/// the city's English name, and the coordinates as the bits of their
/// `f64`.
#[derive(Debug, Clone)]
pub struct CityRecord {
    pub country: Option<String>,
    pub city: Option<String>,
    pub lat: Option<u64>,
    pub lon: Option<u64>,
}

pub struct CityView {
    pub country: Option<Seq<char>>,
    pub city: Option<Seq<char>>,
    pub lat: Option<u64>,
    pub lon: Option<u64>,
}

impl View for CityRecord {
    type V = CityView;

    open spec fn view(&self) -> CityView {
        CityView { country: ov(self.country), city: ov(self.city), lat: self.lat, lon: self.lon }
    }
}

/// What the ASN database holds for an address.
#[derive(Debug, Clone)]
pub struct AsnRecord {
    pub number: Option<u32>,
    pub organization: Option<String>,
}

pub struct AsnView {
    pub number: Option<u32>,
    pub organization: Option<Seq<char>>,
}

impl View for AsnRecord {
    type V = AsnView;

    open spec fn view(&self) -> AsnView {
        AsnView { number: self.number, organization: ov(self.organization) }
    }
}

pub open spec fn ocv(o: Option<CityRecord>) -> Option<CityView> {
    match o {
        Some(c) => Some(c@),
        None => None,
    }
}

pub open spec fn oav(o: Option<AsnRecord>) -> Option<AsnView> {
    match o {
        Some(a) => Some(a@),
        None => None,
    }
}

/// What `maxminddb` reads from the city database `db` for `ip`; nothing
/// where the database does not read, holds no record, or the record does
/// not decode.
pub uninterp spec fn city_record(db: Seq<u8>, ip: IpAddress) -> Option<CityView>;

/// What `maxminddb` reads from the ASN database `db` for `ip`.
pub uninterp spec fn asn_record(db: Seq<u8>, ip: IpAddress) -> Option<AsnView>;

/// `maxminddb::Reader::from_source` on the database's bytes, `lookup` and
/// `decode` as a `geoip2::City`; the result is named.
#[verifier::external_body]
fn read_city(db: &[u8], ip: IpAddress) -> (r: Option<CityRecord>)
    ensures
        ocv(r) == city_record(db@, ip),
{
    let reader = maxminddb::Reader::from_source(db).ok()?;
    let addr: core::net::IpAddr = match ip {
        IpAddress::V4(v) => core::net::Ipv4Addr::from(v).into(),
        IpAddress::V6(v) => core::net::Ipv6Addr::from(v).into(),
    };
    let found = reader.lookup(addr).ok()?;
    let c: maxminddb::geoip2::City = found.decode().ok()??;
    Some(CityRecord {
        country: c.country.iso_code.map(|s| s.to_string()),
        city: c.city.names.english.map(|s| s.to_string()),
        lat: c.location.latitude.map(|x| x.to_bits()),
        lon: c.location.longitude.map(|x| x.to_bits()),
    })
}

/// `maxminddb::Reader::from_source` on the database's bytes, `lookup` and
/// `decode` as a `geoip2::Asn`; the result is named.
#[verifier::external_body]
fn read_asn(db: &[u8], ip: IpAddress) -> (r: Option<AsnRecord>)
    ensures
        oav(r) == asn_record(db@, ip),
{
    let reader = maxminddb::Reader::from_source(db).ok()?;
    let addr: core::net::IpAddr = match ip {
        IpAddress::V4(v) => core::net::Ipv4Addr::from(v).into(),
        IpAddress::V6(v) => core::net::Ipv6Addr::from(v).into(),
    };
    let found = reader.lookup(addr).ok()?;
    let a: maxminddb::geoip2::Asn = found.decode().ok()??;
    Some(AsnRecord {
        number: a.autonomous_system_number,
        organization: a.autonomous_system_organization.map(|s| s.to_string()),
    })
}

/// The facts the two databases give: country, city and coordinates from
/// the city record, number (cut to 32 bits as `as i32` does) and name of
/// the operator from the ASN record.
pub open spec fn geo_facts_of(city: Option<CityView>, asn: Option<AsnView>) -> FactsView {
    let f = match city {
        Some(c) => FactsView {
            geo_country: c.country,
            geo_city: c.city,
            geo_lat: c.lat,
            geo_lon: c.lon,
            ..no_facts()
        },
        None => no_facts(),
    };
    match asn {
        Some(a) => FactsView {
            asn_number: match a.number {
                Some(n) => Some(n as i32),
                None => None,
            },
            asn_name: a.organization,
            ..f
        },
        None => f,
    }
}

/// The facts of a city record and an ASN record.
pub fn facts_from_records(city: Option<CityRecord>, asn: Option<AsnRecord>) -> (r: IpFacts)
    ensures
        r@ == geo_facts_of(ocv(city), oav(asn)),
{
    let mut f = IpFacts::empty();
    match city {
        Some(c) => {
            f.geo_country = c.country;
            f.geo_city = c.city;
            f.geo_lat = c.lat;
            f.geo_lon = c.lon;
        },
        None => {},
    }
    match asn {
        Some(a) => {
            f.asn_number = match a.number {
                Some(n) => Some(n as i32),
                None => None,
            };
            f.asn_name = a.organization;
        },
        None => {},
    }
    f
}

/// What the databases that are present know of `ip`. A missing database
/// is no failure: it then tells nothing.
pub fn geo_lookup(city_db: Option<&Vec<u8>>, asn_db: Option<&Vec<u8>>, ip: IpAddress) -> (r: IpFacts)
    ensures
        r@ == geo_facts_of(
            match city_db {
                Some(db) => city_record(db@, ip),
                None => None,
            },
            match asn_db {
                Some(db) => asn_record(db@, ip),
                None => None,
            },
        ),
{
    let city = match city_db {
        Some(db) => read_city(db.as_slice(), ip),
        None => None,
    };
    let asn = match asn_db {
        Some(db) => read_asn(db.as_slice(), ip),
        None => None,
    };
    facts_from_records(city, asn)
}

// ---------------------------------------------------------------------------
// The databases' upkeep
// ---------------------------------------------------------------------------

/// The two editions fetched; their names are also the file names looked
/// for.
pub open spec fn editions() -> Seq<Seq<char>> {
    seq!["GeoLite2-City"@, "GeoLite2-ASN"@]
}

/// Where MaxMind's direct download offers an edition.
pub open spec fn download_url_of(edition: Seq<char>) -> Seq<char> {
    "https://download.maxmind.com/geoip/databases/"@ + edition + "/download?suffix=tar.gz"@
}

/// Where MaxMind offers an edition.
pub fn download_url(edition: &str) -> (r: String)
    ensures
        r@ == download_url_of(edition@),
{
    let mut v = chars_of("https://download.maxmind.com/geoip/databases/");
    append_chars(&mut v, chars_of(edition).as_slice());
    append_chars(&mut v, chars_of("/download?suffix=tar.gz").as_slice());
    string_from(v.as_slice())
}

/// The file an edition is kept in, within the database directory.
pub fn database_file(edition: &str) -> (r: String)
    ensures
        r@ == edition@ + ".mmdb"@,
{
    let mut v = chars_of(edition);
    append_chars(&mut v, chars_of(".mmdb").as_slice());
    string_from(v.as_slice())
}

/// Whether to download: unless both the build date at MaxMind and that of
/// the local file are known and the remote one is not newer. Without a
/// date only a download is left — still better than a database that is
/// never renewed.
pub fn needs_download(remote: Option<i64>, local: Option<i64>) -> (r: bool)
    ensures
        r == !(remote matches Some(a) && local matches Some(b) && a <= b),
{
    match (remote, local) {
        (Some(a), Some(b)) => !(a <= b),
        _ => true,
    }
}

/// When to look again, in seconds: daily, or after an hour when a run
/// failed — not in a tight loop, or a wrong key is locked out next.
pub fn next_check_after(failed: bool) -> (r: i64)
    ensures
        r == if failed {
            3600i64
        } else {
            86400i64
        },
{
    if failed {
        3600
    } else {
        86400
    }
}

/// The entries of a gzip-compressed tar archive, as paths and contents, in
/// order, as far as they could be read; and what went wrong where reading
/// stopped early.
pub uninterp spec fn tar_gz_entries(body: Seq<u8>) -> (Seq<(Seq<char>, Seq<u8>)>, Option<Seq<char>>);

/// The extension of a path, as `std::path::Path::extension` gives it.
pub uninterp spec fn path_extension(path: Seq<char>) -> Option<Seq<char>>;

pub open spec fn entries_of(v: Seq<(String, Vec<u8>)>) -> Seq<(Seq<char>, Seq<u8>)> {
    v.map_values(|e: (String, Vec<u8>)| (e.0@, e.1@))
}

/// `tar::Archive::entries` over a `flate2::read::GzDecoder` of the body,
/// each entry read to its end, until the first error; the result is named.
#[verifier::external_body]
fn read_archive(body: &[u8]) -> (r: (Vec<(String, Vec<u8>)>, Option<String>))
    ensures
        tar_gz_entries(body@) == (entries_of(r.0@), ov(r.1)),
{
    let mut out = Vec::new();
    let mut archive = tar::Archive::new(flate2::read::GzDecoder::new(body));
    let mut read_all = || -> std::io::Result<()> {
        for entry in archive.entries()? {
            let mut en = entry?;
            let path = en.path()?.to_string_lossy().into_owned();
            let mut buf = Vec::new();
            en.read_to_end(&mut buf)?;
            out.push((path, buf));
        }
        Ok(())
    };
    let failure = read_all().err().map(|e| e.to_string());
    (out, failure)
}

/// `std::path::Path::extension`, as text; the result is named.
#[verifier::external_body]
fn extension(path: &str) -> (r: Option<String>)
    ensures
        ov(r) == path_extension(path@),
{
    std::path::Path::new(path).extension().map(|e| e.to_string_lossy().into_owned())
}

/// The first entry whose extension is `mmdb`.
pub open spec fn first_mmdb(v: Seq<(Seq<char>, Seq<u8>)>, i: int) -> Option<Seq<u8>>
    decreases v.len() - i,
{
    if i < 0 || i >= v.len() {
        None
    } else if path_extension(v[i].0) == Some("mmdb"@) {
        Some(v[i].1)
    } else {
        first_mmdb(v, i + 1)
    }
}

/// The database out of a downloaded archive, as MaxMind ships it: a
/// directory with a date stamp, the database beside notes. The first
/// database among the entries read counts, whatever goes wrong after it;
/// without one, what stopped the reading is the error, else the archive
/// holds no database — an error too, so that nothing is left in place that
/// a reader would take for one.
pub open spec fn mmdb_of(body: Seq<u8>, edition: Seq<char>) -> Result<Seq<u8>, Seq<char>> {
    let (v, failure) = tar_gz_entries(body);
    match first_mmdb(v, 0) {
        Some(db) => Ok(db),
        None => match failure {
            Some(e) => Err(e),
            None => Err(edition + ": kein .mmdb im Archiv"@),
        },
    }
}

/// The database out of a downloaded archive.
pub fn extract_mmdb(body: &[u8], edition: &str) -> (r: Result<Vec<u8>, String>)
    ensures
        match r {
            Ok(db) => mmdb_of(body@, edition@) == Ok::<Seq<u8>, Seq<char>>(db@),
            Err(e) => mmdb_of(body@, edition@) == Err::<Seq<u8>, Seq<char>>(e@),
        },
{
    let (entries, failure) = read_archive(body);
    let ghost ev = entries_of(entries@);
    let mut i: usize = 0;
    while i < entries.len()
        invariant
            0 <= i <= entries@.len(),
            ev == entries_of(entries@),
            tar_gz_entries(body@) == (ev, ov(failure)),
            first_mmdb(ev, 0) == first_mmdb(ev, i as int),
        decreases entries.len() - i,
    {
        assert(ev[i as int] == (entries@[i as int].0@, entries@[i as int].1@));
        let is_db = match extension(entries[i].0.as_str()) {
            Some(e) => crate::text::same_str(chars_of(e.as_str()).as_slice(), "mmdb"),
            None => false,
        };
        if is_db {
            let db = entries[i].1.clone();
            assert(db@ =~= entries@[i as int].1@);
            return Ok(db);
        }
        i = i + 1;
    }
    match failure {
        Some(e) => Err(e),
        None => {
            let mut msg = chars_of(edition);
            append_chars(&mut msg, chars_of(": kein .mmdb im Archiv").as_slice());
            Err(string_from(msg.as_slice()))
        },
    }
}

} // verus!

//! Geographic and network-ownership information about an address, and how it
//! is assembled from the sources the program consults (the private-network
//! rule, a MaxMind database, the freeipapi.com service).

use vstd::prelude::*;
use crate::text::{append_str, has_prefix, push_decimal, decimal, string_from, string_or, text_or};

verus! {

/// Where an address is and who runs it. Coordinates are in millionths of a
/// degree (latitude north, longitude east).
#[derive(Clone, Debug)]
pub struct GeoInfo {
    pub ip: String,
    pub country: String,
    pub city: String,
    pub asn: String,
    pub isp: String,
    pub lat: i64,
    pub lon: i64,
    pub timezone: String,
}

impl GeoInfo {
    /// A copy of this record.
    pub fn duplicate(&self) -> (g: GeoInfo)
        ensures
            g == *self,
    {
        GeoInfo {
            ip: self.ip.clone(),
            country: self.country.clone(),
            city: self.city.clone(),
            asn: self.asn.clone(),
            isp: self.isp.clone(),
            lat: self.lat,
            lon: self.lon,
            timezone: self.timezone.clone(),
        }
    }
}

/// A copy of an optional record.
pub fn duplicate_geo(g: &Option<GeoInfo>) -> (r: Option<GeoInfo>)
    ensures
        r == *g,
{
    match g {
        Some(info) => Some(info.duplicate()),
        None => None,
    }
}

/// The record given to private and loopback addresses.
pub fn local_network_geo(ip_str: &str) -> (g: GeoInfo)
    ensures
        g.ip@ == ip_str@,
        g.country@ == "Local Network"@,
        g.city@ == "LAN"@,
        g.asn@ == "N/A"@,
        g.isp@ == "Private / Loopback"@,
        g.lat == 0,
        g.lon == 0,
        g.timezone@ == "Local"@,
{
    GeoInfo {
        ip: string_from(ip_str),
        country: string_from("Local Network"),
        city: string_from("LAN"),
        asn: string_from("N/A"),
        isp: string_from("Private / Loopback"),
        lat: 0,
        lon: 0,
        timezone: string_from("Local"),
    }
}

/// The AS label for the `asn` field of a service answer: "N/A" when it is
/// missing, empty or "0"; as given when it already starts with "AS";
/// otherwise prefixed with "AS".
pub open spec fn spec_asn_label(raw: Option<Seq<char>>) -> Seq<char> {
    let v = match raw {
        Some(s) => s,
        None => seq![],
    };
    if v.len() == 0 || v == seq!['0'] {
        "N/A"@
    } else if has_prefix(v, seq!['A', 'S']) {
        v
    } else {
        seq!['A', 'S'] + v
    }
}

/// Builds the AS label of a service answer.
pub fn asn_label(raw: Option<String>) -> (s: String)
    ensures
        s@ == spec_asn_label(crate::text::opt_text(raw)),
{
    let v = match raw {
        Some(s) => s,
        None => String::new(),
    };
    let chars = crate::text::chars_of(v.as_str());
    if chars.len() == 0 || (chars.len() == 1 && chars[0] == '0') {
        assert(chars.len() == 1 ==> chars@ =~= seq![chars@[0]]);
        return string_from("N/A");
    }
    assert(chars@ == seq!['0'] ==> chars.len() == 1 && chars[0] == '0');
    if chars.len() >= 2 && chars[0] == 'A' && chars[1] == 'S' {
        assert(chars@.take(2) =~= seq!['A', 'S']);
        v
    } else {
        assert(has_prefix(chars@, seq!['A', 'S']) ==> chars@.take(2)[0] == 'A' && chars@.take(
            2,
        )[1] == 'S');
        let mut s = string_from("AS");
        append_str(&mut s, v.as_str());
        assert(s@ =~= seq!['A', 'S'] + v@) by {
            reveal_strlit("AS");
        }
        s
    }
}

/// An answer of the freeipapi.com service, with coordinates in millionths of
/// a degree.
#[derive(Clone, Debug)]
pub struct ServiceAnswer {
    pub country_name: Option<String>,
    pub city_name: Option<String>,
    pub asn: Option<String>,
    pub org: Option<String>,
    pub latitude: Option<i64>,
    pub longitude: Option<i64>,
    pub time_zone: Option<String>,
}

/// The record built from a service answer about `ip_str`: missing names are
/// "Unknown", a missing time zone is "UTC", missing coordinates are 0.
pub fn geo_from_service(ip_str: &str, answer: ServiceAnswer) -> (g: GeoInfo)
    ensures
        g.ip@ == ip_str@,
        g.country@ == text_or(answer.country_name, "Unknown"@),
        g.city@ == text_or(answer.city_name, "Unknown"@),
        g.asn@ == spec_asn_label(crate::text::opt_text(answer.asn)),
        g.isp@ == text_or(answer.org, "Unknown"@),
        g.lat == (match answer.latitude { Some(v) => v, None => 0 }),
        g.lon == (match answer.longitude { Some(v) => v, None => 0 }),
        g.timezone@ == text_or(answer.time_zone, "UTC"@),
{
    GeoInfo {
        ip: string_from(ip_str),
        country: string_or(answer.country_name, "Unknown"),
        city: string_or(answer.city_name, "Unknown"),
        asn: asn_label(answer.asn),
        isp: string_or(answer.org, "Unknown"),
        lat: match answer.latitude {
            Some(v) => v,
            None => 0,
        },
        lon: match answer.longitude {
            Some(v) => v,
            None => 0,
        },
        timezone: string_or(answer.time_zone, "UTC"),
    }
}

/// The location part of a city-database record (coordinates in millionths of
/// a degree).
#[derive(Clone, Debug)]
pub struct CityLocation {
    pub latitude: Option<i64>,
    pub longitude: Option<i64>,
    pub time_zone: Option<String>,
}

/// What the city database holds about an address: the English country and
/// city names and the location.
#[derive(Clone, Debug)]
pub struct CityRecord {
    pub country_en: Option<String>,
    pub city_en: Option<String>,
    pub location: Option<CityLocation>,
}

/// What the ASN database holds about an address.
#[derive(Clone, Debug)]
pub struct AsnRecord {
    pub number: Option<u32>,
    pub organization: Option<String>,
}

/// The record built from the MaxMind databases about `ip_str`: "Unknown" names,
/// "UTC" and zero coordinates where the databases say nothing; the AS number is
/// written "AS" followed by its decimal digits.
pub fn geo_from_databases(ip_str: &str, city: Option<CityRecord>, asn: Option<AsnRecord>) -> (g:
    GeoInfo)
    ensures
        g.ip@ == ip_str@,
        g.country@ == (match city {
            Some(c) => text_or(c.country_en, "Unknown"@),
            None => "Unknown"@,
        }),
        g.city@ == (match city {
            Some(c) => text_or(c.city_en, "Unknown"@),
            None => "Unknown"@,
        }),
        g.lat == (match city {
            Some(c) => match c.location {
                Some(l) => match l.latitude { Some(v) => v, None => 0 },
                None => 0,
            },
            None => 0,
        }),
        g.lon == (match city {
            Some(c) => match c.location {
                Some(l) => match l.longitude { Some(v) => v, None => 0 },
                None => 0,
            },
            None => 0,
        }),
        g.timezone@ == (match city {
            Some(c) => match c.location {
                Some(l) => text_or(l.time_zone, "UTC"@),
                None => "UTC"@,
            },
            None => "UTC"@,
        }),
        g.asn@ == (match asn {
            Some(a) => match a.number {
                Some(n) => seq!['A', 'S'] + decimal(n as nat),
                None => "Unknown"@,
            },
            None => "Unknown"@,
        }),
        g.isp@ == (match asn {
            Some(a) => text_or(a.organization, "Unknown"@),
            None => "Unknown"@,
        }),
{
    let mut info = GeoInfo {
        ip: string_from(ip_str),
        country: string_from("Unknown"),
        city: string_from("Unknown"),
        asn: string_from("Unknown"),
        isp: string_from("Unknown"),
        lat: 0,
        lon: 0,
        timezone: string_from("UTC"),
    };
    match city {
        Some(c) => {
            info.country = string_or(c.country_en, "Unknown");
            info.city = string_or(c.city_en, "Unknown");
            match c.location {
                Some(l) => {
                    info.lat = match l.latitude {
                        Some(v) => v,
                        None => 0,
                    };
                    info.lon = match l.longitude {
                        Some(v) => v,
                        None => 0,
                    };
                    info.timezone = string_or(l.time_zone, "UTC");
                },
                None => {},
            }
        },
        None => {},
    }
    match asn {
        Some(a) => {
            match a.number {
                Some(n) => {
                    let mut s = string_from("AS");
                    push_decimal(&mut s, n as u64);
                    assert(s@ =~= seq!['A', 'S'] + decimal(n as nat)) by {
                        reveal_strlit("AS");
                    }
                    info.asn = s;
                },
                None => {},
            }
            info.isp = string_or(a.organization, "Unknown");
        },
        None => {},
    }
    info
}

} // verus!

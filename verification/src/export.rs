//! Export of a finished trace: the CSV document (encoded by the `csv` crate)
//! and the points and route of the GeoJSON document.

use vstd::prelude::*;
use vstd::utf8::encode_utf8;
use crate::chart::{frac_ms2, frac_ms2_string, push_render_fixed, render_fixed};
use crate::geoip::GeoInfo;
use crate::map::{push_line, texts};
use crate::stats::{seq_max, seq_min, spec_avg, spec_jitter, spec_loss_pct, HopStats, Ratio};
use crate::text::{decimal, decimal_string, push_char, string_from};
use crate::util::{div_round_even, div_round_even_wide, fixed2};

verus! {

/// A duration of `us` microseconds in milliseconds with two decimals.
pub open spec fn ms2(us: nat) -> Seq<char> {
    fixed2(div_round_even(us, 10))
}

/// A duration of `us` microseconds in milliseconds with one decimal.
pub open spec fn ms1(us: nat) -> Seq<char> {
    render_fixed(div_round_even(us, 100), 1)
}

/// Packet loss in tenths of a percent, rounded (0 when nothing was sent).
pub open spec fn loss_tenths(sent: nat, recv: nat) -> nat {
    if sent == 0 { 0 } else { div_round_even(((sent - recv) * 1000) as nat, sent) }
}

/// Packet loss as a percentage with one decimal and a percent sign ("50.0%").
pub open spec fn loss_text(sent: nat, recv: nat) -> Seq<char> {
    render_fixed(loss_tenths(sent, recv), 1) + seq!['%']
}

/// Renders milliseconds with two decimals.
pub fn ms2_string(us: u64) -> (s: String)
    ensures
        s@ == ms2(us as nat),
{
    let mut s = String::new();
    crate::util::push_fixed2(&mut s, div_round_even_wide(us as u128, 10) as u64);
    assert(s@ =~= ms2(us as nat));
    s
}

/// Renders milliseconds with one decimal.
pub fn ms1_string(us: u64) -> (s: String)
    ensures
        s@ == ms1(us as nat),
{
    let mut s = String::new();
    push_render_fixed(&mut s, div_round_even_wide(us as u128, 100), 1);
    assert(s@ =~= ms1(us as nat));
    s
}

/// Renders the packet loss of `sent` probes of which `recv` were answered.
pub fn loss_string(sent: u32, recv: u32) -> (s: String)
    requires
        recv <= sent,
    ensures
        s@ == loss_text(sent as nat, recv as nat),
{
    let tenths: u128 = if sent == 0 {
        0
    } else {
        div_round_even_wide(((sent - recv) as u128) * 1000, sent as u128)
    };
    let mut s = String::new();
    push_render_fixed(&mut s, tenths, 1);
    push_char(&mut s, '%');
    assert(s@ =~= loss_text(sent as nat, recv as nat));
    s
}

/// The header record of the CSV export.
pub open spec fn csv_header() -> Seq<Seq<char>> {
    seq![
        "Hop"@,
        "IP"@,
        "Hostname"@,
        "Country"@,
        "City"@,
        "ASN"@,
        "ISP"@,
        "Sent"@,
        "Recv"@,
        "Loss%"@,
        "Last_RTT_ms"@,
        "Avg_RTT_ms"@,
        "Min_RTT_ms"@,
        "Max_RTT_ms"@,
        "Jitter_ms"@,
    ]
}

/// A field of the location record, or empty without one.
pub open spec fn geo_field(g: Option<GeoInfo>, f: spec_fn(GeoInfo) -> Seq<char>) -> Seq<char> {
    match g {
        Some(info) => f(info),
        None => seq![],
    }
}

/// The CSV record of one hop: number, address, host name, country, city, AS,
/// ISP, probes sent and received, loss, and the last, mean, least, greatest
/// round-trip times and the jitter in milliseconds (missing values empty).
pub open spec fn csv_row(h: HopStats) -> Seq<Seq<char>> {
    seq![
        decimal(h.hop_num as nat),
        match h.ip { Some(ip) => ip.text(), None => seq![] },
        match h.hostname { Some(n) => n@, None => seq![] },
        geo_field(h.geo_info, |g: GeoInfo| g.country@),
        geo_field(h.geo_info, |g: GeoInfo| g.city@),
        geo_field(h.geo_info, |g: GeoInfo| g.asn@),
        geo_field(h.geo_info, |g: GeoInfo| g.isp@),
        decimal(h.sent as nat),
        decimal(h.recv as nat),
        loss_text(h.sent as nat, h.recv as nat),
        match h.last_rtt { Some(r) => ms2(r as nat), None => seq![] },
        frac_ms2(spec_avg(h.rtts@)),
        ms2(seq_min(h.rtts@) as nat),
        ms2(seq_max(h.rtts@) as nat),
        frac_ms2(spec_jitter(h.rtts@)),
    ]
}

/// In every CSV record the `Min_RTT_ms` field is the least round-trip time of
/// the hop's window and the `Max_RTT_ms` field the greatest, each a time the
/// window holds (both "0.00" for an empty window).
pub proof fn law_csv_min_max_columns(h: HopStats)
    ensures
        csv_header()[12] == "Min_RTT_ms"@,
        csv_header()[13] == "Max_RTT_ms"@,
        h.rtts@.len() > 0 ==> exists|m: u64|
            h.rtts@.contains(m) && (forall|i: int| 0 <= i < h.rtts@.len() ==> m <= #[trigger] h.rtts@[i])
                && csv_row(h)[12] == ms2(m as nat),
        h.rtts@.len() > 0 ==> exists|m: u64|
            h.rtts@.contains(m) && (forall|i: int| 0 <= i < h.rtts@.len() ==> #[trigger] h.rtts@[i] <= m)
                && csv_row(h)[13] == ms2(m as nat),
        h.rtts@.len() == 0 ==> csv_row(h)[12] == ms2(0) && csv_row(h)[13] == ms2(0),
{
    if h.rtts@.len() > 0 {
        crate::stats::lemma_min_max_members(h.rtts@);
        let lo = seq_min(h.rtts@);
        let hi = seq_max(h.rtts@);
        assert(csv_row(h)[12] == ms2(lo as nat));
        assert(csv_row(h)[13] == ms2(hi as nat));
    }
}

/// `true` when the csv writer quotes field `f` (default settings): it holds a
/// ',', '"', '\r' or '\n'.
pub open spec fn csv_needs_quotes(f: Seq<char>) -> bool {
    exists|i: int| 0 <= i < f.len() && (f[i] == ',' || f[i] == '"' || f[i] == '\r' || f[i] == '\n')
}

/// `f` with every '"' doubled.
pub open spec fn csv_escape(f: Seq<char>) -> Seq<char>
    decreases f.len(),
{
    if f.len() == 0 {
        seq![]
    } else {
        csv_escape(f.drop_last()) + (if f.last() == '"' { seq!['"', '"'] } else { seq![f.last()] })
    }
}

/// A field as the csv writer writes it: in quotes, inner quotes doubled, when
/// it needs them; as it is otherwise.
pub open spec fn csv_field(f: Seq<char>) -> Seq<char> {
    if csv_needs_quotes(f) { seq!['"'] + csv_escape(f) + seq!['"'] } else { f }
}

/// The written fields separated by ','.
pub open spec fn csv_join(fields: Seq<Seq<char>>) -> Seq<char>
    decreases fields.len(),
{
    if fields.len() == 0 {
        seq![]
    } else if fields.len() == 1 {
        csv_field(fields[0])
    } else {
        csv_join(fields.drop_last()) + seq![','] + csv_field(fields.last())
    }
}

/// The text of one record as the csv crate writes it with its default
/// settings (comma separated, quoted where needed, quotes doubled, "\n" at the
/// end); a record that would otherwise be empty is written as `""`.
pub open spec fn csv_record_text(fields: Seq<Seq<char>>) -> Seq<char> {
    let body = csv_join(fields);
    (if body.len() == 0 { seq!['"', '"'] } else { body }) + seq!['\n']
}

/// Writes one record with a fresh `csv::Writer` over a byte vector
/// (`Writer::from_writer`, `Writer::write_record`, `Writer::into_inner`).
/// Its contract: the bytes are the UTF-8 encoding of `csv_record_text` of the
/// fields. Writing to a byte vector cannot fail, and a fresh writer has no
/// earlier record whose length could differ, so the crate reports no error.
#[verifier::external_body]
fn encode_csv_record(fields: &Vec<String>) -> (r: Option<Vec<u8>>)
    ensures
        r is Some && r->0@ == encode_utf8(csv_record_text(texts(fields@))),
{
    let mut w = csv::Writer::from_writer(Vec::new());
    if w.write_record(fields).is_err() {
        return None;
    }
    w.into_inner().ok()
}

/// The encodings of `records` one after the other.
pub open spec fn csv_document_of(records: Seq<Seq<Seq<char>>>) -> Seq<u8>
    decreases records.len(),
{
    if records.len() == 0 {
        seq![]
    } else {
        csv_document_of(records.drop_last()) + encode_utf8(csv_record_text(records.last()))
    }
}

/// The records of the CSV export: the header, then one record per hop.
pub open spec fn csv_records(hops: Seq<HopStats>) -> Seq<Seq<Seq<char>>> {
    seq![csv_header()] + hops.map_values(|h: HopStats| csv_row(h))
}

/// The fields of the CSV header.
pub fn csv_header_fields() -> (v: Vec<String>)
    ensures
        texts(v@) == csv_header(),
{
    let mut v: Vec<String> = Vec::new();
    push_line(&mut v, string_from("Hop"));
    push_line(&mut v, string_from("IP"));
    push_line(&mut v, string_from("Hostname"));
    push_line(&mut v, string_from("Country"));
    push_line(&mut v, string_from("City"));
    push_line(&mut v, string_from("ASN"));
    push_line(&mut v, string_from("ISP"));
    push_line(&mut v, string_from("Sent"));
    push_line(&mut v, string_from("Recv"));
    push_line(&mut v, string_from("Loss%"));
    push_line(&mut v, string_from("Last_RTT_ms"));
    push_line(&mut v, string_from("Avg_RTT_ms"));
    push_line(&mut v, string_from("Min_RTT_ms"));
    push_line(&mut v, string_from("Max_RTT_ms"));
    push_line(&mut v, string_from("Jitter_ms"));
    assert(texts(v@) =~= csv_header());
    v
}

fn geo_text(g: &Option<GeoInfo>, which: u8) -> (s: String)
    requires
        which < 4,
    ensures
        s@ == (if which == 0 {
            geo_field(*g, |x: GeoInfo| x.country@)
        } else if which == 1 {
            geo_field(*g, |x: GeoInfo| x.city@)
        } else if which == 2 {
            geo_field(*g, |x: GeoInfo| x.asn@)
        } else {
            geo_field(*g, |x: GeoInfo| x.isp@)
        }),
{
    match g {
        Some(info) => if which == 0 {
            info.country.clone()
        } else if which == 1 {
            info.city.clone()
        } else if which == 2 {
            info.asn.clone()
        } else {
            info.isp.clone()
        },
        None => String::new(),
    }
}

/// The fields of the CSV record of one hop.
pub fn csv_row_fields(h: &HopStats) -> (v: Vec<String>)
    requires
        h.recv <= h.sent,
    ensures
        texts(v@) == csv_row(*h),
{
    let mut v: Vec<String> = Vec::new();
    push_line(&mut v, decimal_string(h.hop_num as u64));
    push_line(
        &mut v,
        match &h.ip {
            Some(ip) => ip.to_text(),
            None => String::new(),
        },
    );
    push_line(
        &mut v,
        match &h.hostname {
            Some(n) => n.clone(),
            None => String::new(),
        },
    );
    push_line(&mut v, geo_text(&h.geo_info, 0));
    push_line(&mut v, geo_text(&h.geo_info, 1));
    push_line(&mut v, geo_text(&h.geo_info, 2));
    push_line(&mut v, geo_text(&h.geo_info, 3));
    push_line(&mut v, decimal_string(h.sent as u64));
    push_line(&mut v, decimal_string(h.recv as u64));
    push_line(&mut v, loss_string(h.sent, h.recv));
    push_line(
        &mut v,
        match h.last_rtt {
            Some(r) => ms2_string(r),
            None => String::new(),
        },
    );
    push_line(&mut v, frac_ms2_string(h.avg_rtt()));
    push_line(&mut v, ms2_string(h.min_rtt()));
    push_line(&mut v, ms2_string(h.max_rtt()));
    push_line(&mut v, frac_ms2_string(h.jitter()));
    assert(texts(v@) =~= csv_row(*h));
    v
}

/// The CSV export of a trace: the header and one record per hop, each encoded
/// by the `csv` crate, one after the other.
pub fn csv_document(hops: &Vec<HopStats>) -> (doc: Vec<u8>)
    requires
        forall|i: int| 0 <= i < hops@.len() ==> (#[trigger] hops@[i]).recv <= hops@[i].sent,
    ensures
        doc@ == csv_document_of(csv_records(hops@)),
{
    let ghost recs = csv_records(hops@);
    let header = csv_header_fields();
    let mut out: Vec<u8> = Vec::new();
    assert(recs.take(1).drop_last() =~= seq![]);
    assert(recs.take(1).last() == csv_header());
    if let Some(b) = encode_csv_record(&header) {
        out = b;
        assert(csv_document_of(recs.take(1).drop_last()) == Seq::<u8>::empty());
        assert(csv_document_of(recs.take(1)) == Seq::<u8>::empty() + out@);
        assert(csv_document_of(recs.take(1)) =~= out@);
    }
    let mut i: usize = 0;
    while i < hops.len()
        invariant
            i <= hops.len(),
            forall|k: int| 0 <= k < hops@.len() ==> (#[trigger] hops@[k]).recv <= hops@[k].sent,
            recs == csv_records(hops@),
            csv_document_of(recs.take(i + 1)) == out@,
        decreases hops.len() - i,
    {
        let fields = csv_row_fields(&hops[i]);
        assert(recs.take(i + 2).drop_last() =~= recs.take(i + 1));
        assert(recs.take(i + 2).last() == csv_row(hops@[i as int]));
        if let Some(b) = encode_csv_record(&fields) {
            let ghost before = out@;
            let mut b2 = b;
            out.append(&mut b2);
            assert(out@ =~= before + b@);
        }
        i = i + 1;
    }
    assert(recs.take(hops.len() + 1) =~= recs);
    out
}

/// One point of the GeoJSON export: a hop with known, non-zero coordinates.
#[derive(Clone, Debug)]
pub struct GeoPoint {
    pub hop_num: u8,
    pub ip: String,
    pub hostname: String,
    pub country: String,
    pub city: String,
    pub asn: String,
    pub isp: String,
    /// Millionths of a degree.
    pub lat: i64,
    /// Millionths of a degree.
    pub lon: i64,
    /// Mean round-trip time in microseconds, exact.
    pub avg_rtt: Ratio,
    /// Loss in percent, exact.
    pub loss_pct: Ratio,
    pub sent: u32,
    pub recv: u32,
}

/// `true` when a hop has a location whose coordinates are not both zero.
pub open spec fn has_point(h: HopStats) -> bool {
    match h.geo_info {
        Some(g) => g.lat != 0 || g.lon != 0,
        None => false,
    }
}

/// The hops that become points of the GeoJSON export, in order.
pub open spec fn point_hops(hops: Seq<HopStats>) -> Seq<HopStats>
    decreases hops.len(),
{
    if hops.len() == 0 {
        seq![]
    } else if has_point(hops.last()) {
        point_hops(hops.drop_last()).push(hops.last())
    } else {
        point_hops(hops.drop_last())
    }
}

/// The point of a hop that has one.
pub open spec fn point_of(p: GeoPoint, h: HopStats) -> bool {
    &&& h.geo_info is Some
    &&& p.hop_num == h.hop_num
    &&& p.ip@ == (match h.ip { Some(ip) => ip.text(), None => seq![] })
    &&& p.hostname@ == (match h.hostname { Some(n) => n@, None => seq![] })
    &&& p.country@ == h.geo_info->0.country@
    &&& p.city@ == h.geo_info->0.city@
    &&& p.asn@ == h.geo_info->0.asn@
    &&& p.isp@ == h.geo_info->0.isp@
    &&& p.lat == h.geo_info->0.lat
    &&& p.lon == h.geo_info->0.lon
    &&& p.avg_rtt@ == spec_avg(h.rtts@)
    &&& p.loss_pct@ == spec_loss_pct(h.sent as nat, h.recv as nat)
    &&& p.sent == h.sent
    &&& p.recv == h.recv
}

/// The points of the GeoJSON export: one per hop with non-zero coordinates, in
/// hop order. The route line joining them is drawn when there are at least two.
pub fn geojson_points(hops: &Vec<HopStats>) -> (pts: Vec<GeoPoint>)
    requires
        forall|i: int| 0 <= i < hops@.len() ==> (#[trigger] hops@[i]).recv <= hops@[i].sent,
    ensures
        pts@.len() == point_hops(hops@).len(),
        forall|k: int| 0 <= k < pts@.len() ==> point_of(#[trigger] pts@[k], point_hops(hops@)[k]),
{
    let mut pts: Vec<GeoPoint> = Vec::new();
    let mut i: usize = 0;
    while i < hops.len()
        invariant
            i <= hops.len(),
            forall|k: int| 0 <= k < hops@.len() ==> (#[trigger] hops@[k]).recv <= hops@[k].sent,
            pts@.len() == point_hops(hops@.take(i as int)).len(),
            forall|k: int| 0 <= k < pts@.len() ==> point_of(#[trigger] pts@[k], point_hops(hops@.take(i as int))[k]),
        decreases hops.len() - i,
    {
        assert(hops@.take(i + 1).drop_last() =~= hops@.take(i as int));
        assert(hops@.take(i + 1).last() == hops@[i as int]);
        let h = &hops[i];
        match &h.geo_info {
            Some(g) => {
                if g.lat != 0 || g.lon != 0 {
                    let p = GeoPoint {
                        hop_num: h.hop_num,
                        ip: match &h.ip {
                            Some(ip) => ip.to_text(),
                            None => String::new(),
                        },
                        hostname: match &h.hostname {
                            Some(n) => n.clone(),
                            None => String::new(),
                        },
                        country: g.country.clone(),
                        city: g.city.clone(),
                        asn: g.asn.clone(),
                        isp: g.isp.clone(),
                        lat: g.lat,
                        lon: g.lon,
                        avg_rtt: h.avg_rtt(),
                        loss_pct: h.loss_pct(),
                        sent: h.sent,
                        recv: h.recv,
                    };
                    pts.push(p);
                }
            },
            None => {},
        }
        i = i + 1;
    }
    assert(hops@.take(hops.len() as int) =~= hops@);
    pts
}

/// The route line of the GeoJSON export: the coordinates (longitude, then
/// latitude, in millionths of a degree) of `pts` in order, drawn only when there
/// are at least two points.
pub open spec fn spec_route_line(pts: Seq<GeoPoint>) -> Option<Seq<(i64, i64)>> {
    if pts.len() >= 2 {
        Some(pts.map_values(|p: GeoPoint| (p.lon, p.lat)))
    } else {
        None
    }
}

/// The route line joining the points of the GeoJSON export, when there are at
/// least two of them.
pub fn route_line(pts: &Vec<GeoPoint>) -> (line: Option<Vec<(i64, i64)>>)
    ensures
        match line {
            Some(v) => spec_route_line(pts@) == Some(v@),
            None => spec_route_line(pts@) is None,
        },
{
    if pts.len() < 2 {
        return None;
    }
    let mut v: Vec<(i64, i64)> = Vec::new();
    let mut i: usize = 0;
    while i < pts.len()
        invariant
            i <= pts.len(),
            v@ == pts@.take(i as int).map_values(|p: GeoPoint| (p.lon, p.lat)),
        decreases pts.len() - i,
    {
        v.push((pts[i].lon, pts[i].lat));
        i = i + 1;
        assert(v@ =~= pts@.take(i as int).map_values(|p: GeoPoint| (p.lon, p.lat)));
    }
    assert(pts@.take(pts.len() as int) =~= pts@);
    Some(v)
}

} // verus!

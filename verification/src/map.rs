//! The text views of a finished trace: the geographic path, the AS transit
//! path, the latency heatmap and the latency chart, as lines of text.

use vstd::prelude::*;
use crate::geoip::GeoInfo;
use crate::stats::HopStats;
use crate::text::{append_str, str_eq, string_from};


verus! {

/// The characters of each line.
pub open spec fn texts(v: Seq<String>) -> Seq<Seq<char>> {
    v.map_values(|s: String| s@)
}

/// Top border of a section banner.
pub open spec fn banner_top() -> Seq<char> {
    "╔══════════════════════════════════════╗"@
}

/// Bottom border of a section banner.
pub open spec fn banner_bottom() -> Seq<char> {
    "╚══════════════════════════════════════╝"@
}

/// A city is shown unless it is empty, "Unknown" or "LAN".
pub open spec fn city_shown(city: Seq<char>) -> bool {
    !(city.len() == 0 || city == "Unknown"@ || city == "LAN"@)
}

/// "Country, City", or the country alone when the city is not shown.
pub open spec fn location_of(g: GeoInfo) -> Seq<char> {
    if city_shown(g.city@) {
        g.country@ + ", "@ + g.city@
    } else {
        g.country@
    }
}

/// The geographic path: (location, AS) of each hop with a known country whose
/// location differs from the previous entry, in hop order.
pub open spec fn geo_path(hops: Seq<HopStats>) -> Seq<(Seq<char>, Seq<char>)>
    decreases hops.len(),
{
    if hops.len() == 0 {
        seq![]
    } else {
        let p = geo_path(hops.drop_last());
        match hops.last().geo_info {
            Some(g) => {
                let loc = location_of(g);
                if g.country@ != "Unknown"@ && (p.len() == 0 || p.last().0 != loc) {
                    p.push((loc, g.asn@))
                } else {
                    p
                }
            },
            None => p,
        }
    }
}

/// Adding a hop to the route: a hop with a known country leaves the path
/// ending at its location, appending an entry exactly when that location
/// differs from the last entry so far (only consecutive repeats merge); a hop
/// without a known location leaves the path as it was. Earlier entries never
/// change.
pub proof fn law_geo_path_step(hops: Seq<HopStats>, h: HopStats)
    ensures
        ({
            let p = geo_path(hops);
            let q = geo_path(hops.push(h));
            &&& q.take(p.len() as int) == p
            &&& match h.geo_info {
                Some(g) => if g.country@ != "Unknown"@ {
                    &&& q.len() > 0
                    &&& q.last().0 == location_of(g)
                    &&& (p.len() == 0 || p.last().0 != location_of(g)) ==> q.len() == p.len() + 1
                        && q.last() == (location_of(g), g.asn@)
                    &&& (p.len() > 0 && p.last().0 == location_of(g)) ==> q == p
                } else {
                    q == p
                },
                None => q == p,
            }
        }),
{
    let p = geo_path(hops);
    assert(hops.push(h).drop_last() =~= hops);
    assert(hops.push(h).last() == h);
    let q = geo_path(hops.push(h));
    assert(q.take(p.len() as int) =~= p);
}

/// Successive entries of the geographic path are at different locations, and
/// every entry has a known country.
pub proof fn law_geo_path_no_repeats(hops: Seq<HopStats>)
    ensures
        forall|i: int| 0 <= i < geo_path(hops).len() - 1 ==> #[trigger] geo_path(hops)[i].0 != geo_path(hops)[i + 1].0,
        geo_path(hops).len() <= hops.len(),
    decreases hops.len(),
{
    if hops.len() > 0 {
        law_geo_path_no_repeats(hops.drop_last());
        let p = geo_path(hops.drop_last());
        assert forall|i: int| 0 <= i < geo_path(hops).len() - 1 implies #[trigger] geo_path(hops)[i].0 != geo_path(hops)[i + 1].0 by {
            if i + 1 < p.len() {
                assert(geo_path(hops)[i] == p[i] && geo_path(hops)[i + 1] == p[i + 1]);
            } else {
                assert(geo_path(hops)[i] == p.last());
            }
        }
    }
}

/// An AS label is shown unless it is "N/A", "Unknown" or empty.
pub open spec fn asn_shown(asn: Seq<char>) -> bool {
    asn != "N/A"@ && asn != "Unknown"@ && asn.len() != 0
}

/// The line of one entry of the geographic path.
pub open spec fn geo_line(loc: Seq<char>, asn: Seq<char>) -> Seq<char> {
    "  📍 "@ + loc + (if asn_shown(asn) { "  ["@ + asn + "]"@ } else { seq![] })
}

/// The vertical connector between path entries.
pub open spec fn connector() -> Seq<char> {
    "      │"@
}

/// The lines of a geographic path: entries joined by two connector lines.
pub open spec fn geo_path_lines(p: Seq<(Seq<char>, Seq<char>)>) -> Seq<Seq<char>>
    decreases p.len(),
{
    if p.len() == 0 {
        seq![]
    } else if p.len() == 1 {
        seq![geo_line(p[0].0, p[0].1)]
    } else {
        geo_path_lines(p.drop_last()) + seq![connector(), connector(), geo_line(p.last().0, p.last().1)]
    }
}

/// The geographic path section: banner, then the path and a blank line, or a
/// note that there is no geographic data.
pub open spec fn spec_ascii_map_lines(hops: Seq<HopStats>) -> Seq<Seq<char>> {
    let p = geo_path(hops);
    seq![seq![], banner_top(), "║   RouteScope — Geographic Path       ║"@, banner_bottom()] + if p.len()
        == 0 {
        seq!["  (no geographic data available)"@]
    } else {
        geo_path_lines(p) + seq![seq![]]
    }
}

/// The AS transit path: (AS, ISP) of each hop with a shown AS label that
/// differs from the previous entry, in hop order.
pub open spec fn asn_path(hops: Seq<HopStats>) -> Seq<(Seq<char>, Seq<char>)>
    decreases hops.len(),
{
    if hops.len() == 0 {
        seq![]
    } else {
        let p = asn_path(hops.drop_last());
        match hops.last().geo_info {
            Some(g) => if asn_shown(g.asn@) && (p.len() == 0 || p.last().0 != g.asn@) {
                p.push((g.asn@, g.isp@))
            } else {
                p
            },
            None => p,
        }
    }
}

/// Successive entries of the AS path name different systems, each of them shown.
pub proof fn law_asn_path_no_repeats(hops: Seq<HopStats>)
    ensures
        forall|i: int| 0 <= i < asn_path(hops).len() - 1 ==> #[trigger] asn_path(hops)[i].0 != asn_path(hops)[i + 1].0,
        forall|i: int| 0 <= i < asn_path(hops).len() ==> asn_shown(#[trigger] asn_path(hops)[i].0),
        asn_path(hops).len() <= hops.len(),
    decreases hops.len(),
{
    if hops.len() > 0 {
        law_asn_path_no_repeats(hops.drop_last());
        let p = asn_path(hops.drop_last());
        assert forall|i: int| 0 <= i < asn_path(hops).len() - 1 implies #[trigger] asn_path(hops)[i].0 != asn_path(hops)[i + 1].0 by {
            if i + 1 < p.len() {
                assert(asn_path(hops)[i] == p[i] && asn_path(hops)[i + 1] == p[i + 1]);
            } else {
                assert(asn_path(hops)[i] == p.last());
            }
        }
        assert forall|i: int| 0 <= i < asn_path(hops).len() implies asn_shown(#[trigger] asn_path(hops)[i].0) by {
            if i < p.len() {
                assert(asn_path(hops)[i] == p[i]);
            }
        }
    }
}

/// The line of one entry of the AS path; the ISP is shown unless empty or "Unknown".
pub open spec fn asn_line(asn: Seq<char>, isp: Seq<char>) -> Seq<char> {
    "  🔗 "@ + asn + (if isp.len() != 0 && isp != "Unknown"@ { " ("@ + isp + ")"@ } else {
        seq![]
    })
}

/// The lines of an AS path: entries joined by one connector line.
pub open spec fn asn_path_lines(p: Seq<(Seq<char>, Seq<char>)>) -> Seq<Seq<char>>
    decreases p.len(),
{
    if p.len() == 0 {
        seq![]
    } else if p.len() == 1 {
        seq![asn_line(p[0].0, p[0].1)]
    } else {
        asn_path_lines(p.drop_last()) + seq![connector(), asn_line(p.last().0, p.last().1)]
    }
}

/// The AS transit section: banner, then the path or a note that there is no AS
/// data, then a blank line.
pub open spec fn spec_asn_path_lines(hops: Seq<HopStats>) -> Seq<Seq<char>> {
    let p = asn_path(hops);
    seq![banner_top(), "║   RouteScope — ASN Transit Path      ║"@, banner_bottom()] + if p.len() == 0 {
        seq!["  (no ASN data available)"@, seq![]]
    } else {
        asn_path_lines(p) + seq![seq![]]
    }
}

/// The location text of a record ("Country, City" or the country alone).
pub fn location_text(g: &GeoInfo) -> (loc: String)
    ensures
        loc@ == location_of(*g),
{
    let c = g.city.as_str();
    if c.is_empty() || str_eq(c, "Unknown") || str_eq(c, "LAN") {
        g.country.clone()
    } else {
        let mut loc = g.country.clone();
        append_str(&mut loc, ", ");
        append_str(&mut loc, c);
        loc
    }
}

fn is_asn_shown(asn: &str) -> (r: bool)
    ensures
        r == asn_shown(asn@),
{
    !str_eq(asn, "N/A") && !str_eq(asn, "Unknown") && !asn.is_empty()
}

/// Computes the geographic path of a trace.
pub fn geographic_path(hops: &Vec<HopStats>) -> (p: Vec<(String, String)>)
    ensures
        p@.map_values(|e: (String, String)| (e.0@, e.1@)) == geo_path(hops@),
{
    let mut p: Vec<(String, String)> = Vec::new();
    let mut i: usize = 0;
    while i < hops.len()
        invariant
            i <= hops.len(),
            p@.map_values(|e: (String, String)| (e.0@, e.1@)) == geo_path(hops@.take(i as int)),
        decreases hops.len() - i,
    {
        let ghost pv = p@.map_values(|e: (String, String)| (e.0@, e.1@));
        assert(hops@.take(i + 1).drop_last() =~= hops@.take(i as int));
        match &hops[i].geo_info {
            Some(g) => {
                let loc = location_text(g);
                let known = !str_eq(g.country.as_str(), "Unknown");
                let differs = if p.len() == 0 {
                    true
                } else {
                    !str_eq(p[p.len() - 1].0.as_str(), loc.as_str())
                };
                if known && differs {
                    p.push((loc, g.asn.clone()));
                    assert(p@.map_values(|e: (String, String)| (e.0@, e.1@)) =~= pv.push(
                        (location_of(*g), g.asn@),
                    ));
                }
            },
            None => {},
        }
        i = i + 1;
    }
    assert(hops@.take(hops.len() as int) =~= hops@);
    p
}

/// Computes the AS transit path of a trace.
pub fn transit_path(hops: &Vec<HopStats>) -> (p: Vec<(String, String)>)
    ensures
        p@.map_values(|e: (String, String)| (e.0@, e.1@)) == asn_path(hops@),
{
    let mut p: Vec<(String, String)> = Vec::new();
    let mut i: usize = 0;
    while i < hops.len()
        invariant
            i <= hops.len(),
            p@.map_values(|e: (String, String)| (e.0@, e.1@)) == asn_path(hops@.take(i as int)),
        decreases hops.len() - i,
    {
        let ghost pv = p@.map_values(|e: (String, String)| (e.0@, e.1@));
        assert(hops@.take(i + 1).drop_last() =~= hops@.take(i as int));
        match &hops[i].geo_info {
            Some(g) => {
                let shown = is_asn_shown(g.asn.as_str());
                let differs = if p.len() == 0 {
                    true
                } else {
                    !str_eq(p[p.len() - 1].0.as_str(), g.asn.as_str())
                };
                if shown && differs {
                    p.push((g.asn.clone(), g.isp.clone()));
                    assert(p@.map_values(|e: (String, String)| (e.0@, e.1@)) =~= pv.push(
                        (g.asn@, g.isp@),
                    ));
                }
            },
            None => {},
        }
        i = i + 1;
    }
    assert(hops@.take(hops.len() as int) =~= hops@);
    p
}

/// Appends one line.
pub fn push_line(lines: &mut Vec<String>, s: String)
    ensures
        texts(final(lines)@) == texts(old(lines)@).push(s@),
{
    let ghost before = texts(lines@);
    lines.push(s);
    assert(texts(lines@) =~= before.push(s@));
}

/// The lines of the geographic path section.
pub fn ascii_map_lines(hops: &Vec<HopStats>) -> (lines: Vec<String>)
    ensures
        texts(lines@) == spec_ascii_map_lines(hops@),
{
    let p = geographic_path(hops);
    let ghost pv = p@.map_values(|e: (String, String)| (e.0@, e.1@));
    let mut lines: Vec<String> = Vec::new();
    push_line(&mut lines, String::new());
    push_line(&mut lines, string_from("╔══════════════════════════════════════╗"));
    push_line(&mut lines, string_from("║   RouteScope — Geographic Path       ║"));
    push_line(&mut lines, string_from("╚══════════════════════════════════════╝"));
    let ghost head = texts(lines@);
    if p.len() == 0 {
        push_line(&mut lines, string_from("  (no geographic data available)"));
        assert(texts(lines@) =~= spec_ascii_map_lines(hops@));
        return lines;
    }
    let mut i: usize = 0;
    while i < p.len()
        invariant
            0 < p.len(),
            i <= p.len(),
            pv == p@.map_values(|e: (String, String)| (e.0@, e.1@)),
            texts(lines@) == head + geo_path_lines(pv.take(i as int)),
        decreases p.len() - i,
    {
        let ghost before = texts(lines@);
        if i > 0 {
            push_line(&mut lines, string_from("      │"));
            push_line(&mut lines, string_from("      │"));
        }
        let mut line = string_from("  📍 ");
        append_str(&mut line, p[i].0.as_str());
        let asn = p[i].1.as_str();
        if is_asn_shown(asn) {
            append_str(&mut line, "  [");
            append_str(&mut line, asn);
            append_str(&mut line, "]");
        }
        assert(line@ =~= geo_line(pv[i as int].0, pv[i as int].1));
        push_line(&mut lines, line);
        assert(pv.take(i + 1).drop_last() =~= pv.take(i as int));
        if i == 0 {
            assert(pv.take(1) =~= seq![pv[0]]);
        }
        i = i + 1;
        assert(texts(lines@) =~= head + geo_path_lines(pv.take(i as int)));
    }
    push_line(&mut lines, String::new());
    assert(pv.take(p.len() as int) =~= pv);
    assert(texts(lines@) =~= spec_ascii_map_lines(hops@));
    lines
}

/// The lines of the AS transit path section.
pub fn asn_path_lines_of(hops: &Vec<HopStats>) -> (lines: Vec<String>)
    ensures
        texts(lines@) == spec_asn_path_lines(hops@),
{
    let p = transit_path(hops);
    let ghost pv = p@.map_values(|e: (String, String)| (e.0@, e.1@));
    let mut lines: Vec<String> = Vec::new();
    push_line(&mut lines, string_from("╔══════════════════════════════════════╗"));
    push_line(&mut lines, string_from("║   RouteScope — ASN Transit Path      ║"));
    push_line(&mut lines, string_from("╚══════════════════════════════════════╝"));
    let ghost head = texts(lines@);
    if p.len() == 0 {
        push_line(&mut lines, string_from("  (no ASN data available)"));
        push_line(&mut lines, String::new());
        assert(texts(lines@) =~= spec_asn_path_lines(hops@));
        return lines;
    }
    let mut i: usize = 0;
    while i < p.len()
        invariant
            0 < p.len(),
            i <= p.len(),
            pv == p@.map_values(|e: (String, String)| (e.0@, e.1@)),
            texts(lines@) == head + asn_path_lines(pv.take(i as int)),
        decreases p.len() - i,
    {
        if i > 0 {
            push_line(&mut lines, string_from("      │"));
        }
        let mut line = string_from("  🔗 ");
        append_str(&mut line, p[i].0.as_str());
        let isp = p[i].1.as_str();
        if !isp.is_empty() && !str_eq(isp, "Unknown") {
            append_str(&mut line, " (");
            append_str(&mut line, isp);
            append_str(&mut line, ")");
        }
        assert(line@ =~= asn_line(pv[i as int].0, pv[i as int].1));
        push_line(&mut lines, line);
        assert(pv.take(i + 1).drop_last() =~= pv.take(i as int));
        if i == 0 {
            assert(pv.take(1) =~= seq![pv[0]]);
        }
        i = i + 1;
        assert(texts(lines@) =~= head + asn_path_lines(pv.take(i as int)));
    }
    push_line(&mut lines, String::new());
    assert(pv.take(p.len() as int) =~= pv);
    assert(texts(lines@) =~= spec_asn_path_lines(hops@));
    lines
}

} // verus!

//! The live view: the hop table kept up to date from trace updates, the keys
//! that drive it, and the text of its rows and detail panel.

use vstd::prelude::*;
use crate::chart::{heatmap_bar, rtt_color, spec_live_bar, spec_rtt_color, Shade};
use crate::stats::{lemma_avg_fits, value_fits, Ratio};
use crate::export::{loss_string, loss_text, ms1, ms1_string};
use crate::stats::{seq_max, seq_min, spec_avg, spec_jitter, HopStats};
use crate::summary::{host_cell, host_text, ip_cell, ip_text};
use crate::text::{append_str, decimal, decimal_string, padded_decimal, push_char, push_decimal, push_padded_decimal, str_eq, string_from};
use crate::util::{div_round_even, div_round_even_wide};

verus! {

/// The hop list after an update for hop `hop_num` arrived: it replaces the
/// entry at index `hop_num - 1`, is appended when it is the next one, and is
/// dropped otherwise.
pub open spec fn merged(hops: Seq<HopStats>, hop: HopStats) -> Seq<HopStats> {
    let idx = hop.hop_num - 1;
    if idx < hops.len() {
        hops.update(idx, hop)
    } else if idx == hops.len() {
        hops.push(hop)
    } else {
        hops
    }
}

/// Stores an update of one hop in the hop list.
pub fn merge_update(hops: &mut Vec<HopStats>, hop: HopStats)
    requires
        hop.hop_num >= 1,
    ensures
        final(hops)@ == merged(old(hops)@, hop),
{
    let idx = (hop.hop_num - 1) as usize;
    if idx < hops.len() {
        hops.set(idx, hop);
    } else if idx == hops.len() {
        hops.push(hop);
    }
}

/// The hop list without its trailing never-probed hops (the first hop stays).
pub open spec fn trimmed(hops: Seq<HopStats>) -> Seq<HopStats>
    decreases hops.len(),
{
    if hops.len() > 1 && hops.last().sent == 0 {
        trimmed(hops.drop_last())
    } else {
        hops
    }
}

/// Removes the trailing hops that were never probed (keeping at least one).
pub fn trim_unprobed(hops: &mut Vec<HopStats>)
    ensures
        final(hops)@ == trimmed(old(hops)@),
{
    while hops.len() > 1 && hops[hops.len() - 1].sent == 0
        invariant
            trimmed(hops@) == trimmed(old(hops)@),
        decreases hops.len(),
    {
        let ghost before = hops@;
        hops.pop();
        assert(hops@ =~= before.drop_last());
    }
}

/// Trimming keeps at least one hop of a non-empty list, keeps a prefix of it,
/// and leaves a list whose last hop was probed unless only one hop is left.
pub proof fn law_trim_keeps_prefix(hops: Seq<HopStats>)
    ensures
        trimmed(hops).len() <= hops.len(),
        hops.len() > 0 ==> trimmed(hops).len() >= 1,
        trimmed(hops) == hops.take(trimmed(hops).len() as int),
        trimmed(hops).len() > 1 ==> trimmed(hops).last().sent > 0,
    decreases hops.len(),
{
    if hops.len() > 1 && hops.last().sent == 0 {
        law_trim_keeps_prefix(hops.drop_last());
        let t = trimmed(hops.drop_last());
        assert(hops.drop_last().take(t.len() as int) =~= hops.take(t.len() as int));
    } else {
        assert(hops.take(hops.len() as int) =~= hops);
    }
}

/// Moving the selection of a non-empty table always lands on one of its rows.
pub proof fn law_selection_in_range(sel: Option<usize>, len: nat)
    requires
        len > 0,
    ensures
        select_down(sel, len) < len,
        sel matches Some(i) && i < len ==> select_up(sel, len) < len,
        sel is None ==> select_up(sel, len) < len,
{
}

/// A key of the live view.
#[derive(Clone, Copy, Debug, PartialEq, Eq, Structural)]
pub enum LiveKey {
    Quit,
    TogglePause,
    Down,
    Up,
    Other,
}

/// The selection after moving down: the next row, wrapping to the first.
pub open spec fn select_down(sel: Option<usize>, len: nat) -> usize {
    match sel {
        Some(i) => if i >= (if len == 0 { 0 } else { len - 1 }) { 0 } else { (i + 1) as usize },
        None => 0,
    }
}

/// The selection after moving up: the previous row, wrapping to the last.
pub open spec fn select_up(sel: Option<usize>, len: nat) -> usize {
    match sel {
        Some(i) => if i == 0 { (if len == 0 { 0 } else { len - 1 }) as usize } else { (i - 1) as usize },
        None => 0,
    }
}

/// Hop `n` before any probe: nothing sent or answered, no round-trip times,
/// and no address, host name or location.
pub open spec fn unprobed_hop(h: HopStats, n: int) -> bool {
    &&& h.hop_num == n
    &&& h.sent == 0
    &&& h.recv == 0
    &&& h.last_rtt is None
    &&& h.rtts@.len() == 0
    &&& h.ip is None
    &&& h.hostname is None
    &&& h.geo_info is None
}

/// The state of the live view.
pub struct LiveModel {
    pub hops: Vec<HopStats>,
    pub selected: Option<usize>,
    pub paused: bool,
    pub trace_done: bool,
}

impl LiveModel {
    /// The view before any update: hops 1..=`max_hops` unprobed, the first selected.
    pub fn new(max_hops: u8) -> (m: Self)
        ensures
            m.hops@.len() == max_hops,
            forall|i: int|
                0 <= i < m.hops@.len() ==> unprobed_hop(#[trigger] m.hops@[i], i + 1),
            m.selected == Some(0usize),
            !m.paused,
            !m.trace_done,
    {
        let mut hops: Vec<HopStats> = Vec::new();
        let mut n: u8 = 0;
        while n < max_hops
            invariant
                n <= max_hops,
                hops@.len() == n,
                forall|i: int| 0 <= i < hops@.len() ==> unprobed_hop(#[trigger] hops@[i], i + 1),
            decreases max_hops - n,
        {
            n = n + 1;
            hops.push(HopStats::new(n));
        }
        LiveModel { hops, selected: Some(0), paused: false, trace_done: false }
    }

    /// Handles a key; returns `true` when the view should close.
    pub fn on_key(&mut self, key: LiveKey) -> (quit: bool)
        ensures
            quit == (key == LiveKey::Quit),
            final(self).hops@ == old(self).hops@,
            final(self).trace_done == old(self).trace_done,
            final(self).paused == (if key == LiveKey::TogglePause { !old(self).paused } else {
                old(self).paused
            }),
            final(self).selected == (if key == LiveKey::Down {
                Some(select_down(old(self).selected, old(self).hops@.len()))
            } else if key == LiveKey::Up {
                Some(select_up(old(self).selected, old(self).hops@.len()))
            } else {
                old(self).selected
            }),
    {
        let len = self.hops.len();
        let last = if len == 0 { 0 } else { len - 1 };
        match key {
            LiveKey::Quit => true,
            LiveKey::TogglePause => {
                self.paused = !self.paused;
                false
            },
            LiveKey::Down => {
                let i = match self.selected {
                    Some(i) => if i >= last { 0 } else { i + 1 },
                    None => 0,
                };
                self.selected = Some(i);
                false
            },
            LiveKey::Up => {
                let i = match self.selected {
                    Some(i) => if i == 0 { last } else { i - 1 },
                    None => 0,
                };
                self.selected = Some(i);
                false
            },
            LiveKey::Other => false,
        }
    }

    /// Takes in an update from the trace, unless the view is paused.
    pub fn receive(&mut self, hop: HopStats)
        requires
            hop.hop_num >= 1,
        ensures
            final(self).hops@ == (if old(self).paused { old(self).hops@ } else { merged(
                old(self).hops@,
                hop,
            ) }),
            final(self).selected == old(self).selected,
            final(self).paused == old(self).paused,
            final(self).trace_done == old(self).trace_done,
    {
        if !self.paused {
            merge_update(&mut self.hops, hop);
        }
    }

    /// Marks the trace as finished and drops the trailing never-probed hops.
    pub fn finish(&mut self)
        ensures
            final(self).trace_done,
            final(self).hops@ == trimmed(old(self).hops@),
            final(self).selected == old(self).selected,
            final(self).paused == old(self).paused,
    {
        self.trace_done = true;
        trim_unprobed(&mut self.hops);
    }
}

/// The cells of one row of the live hop table.
#[derive(Clone, Debug)]
pub struct LiveRow {
    pub hop: String,
    pub ip: String,
    pub hostname: String,
    pub loss: String,
    pub loss_shade: Shade,
    pub sent: String,
    pub recv: String,
    pub last: String,
    pub avg: String,
    pub best: String,
    pub worst: String,
    pub jitter: String,
    /// The color of the mean round-trip time; `None` (dimmed) when nothing answered.
    pub avg_shade: Option<Shade>,
    pub country: String,
    pub city: String,
    pub asn: String,
    pub bar: String,
}

/// `v` in milliseconds with one decimal when `shown`, else "*".
pub open spec fn ms1_or_star(shown: bool, v: nat) -> Seq<char> {
    if shown { ms1(v) } else { "*"@ }
}

/// Milliseconds with one decimal of a fraction of microseconds.
pub open spec fn frac_ms1(v: (nat, nat)) -> Seq<char> {
    crate::chart::render_fixed(div_round_even(v.0, 100 * v.1), 1)
}

/// A fraction of microseconds in milliseconds with one decimal when `shown`,
/// else "*".
pub open spec fn frac_ms1_or_star(shown: bool, v: (nat, nat)) -> Seq<char> {
    if shown { frac_ms1(v) } else { "*"@ }
}

/// The row of a hop in the live table, with `max` the greatest mean round-trip
/// time among the answering hops and a heat bar of 16 cells.
pub open spec fn live_row_of(r: LiveRow, h: HopStats, max: (nat, nat)) -> bool {
    let avg = spec_avg(h.rtts@);
    &&& r.hop@ == decimal(h.hop_num as nat)
    &&& r.ip@ == ip_cell(h)
    &&& r.hostname@ == host_cell(h)
    &&& r.loss@ == loss_text(h.sent as nat, h.recv as nat)
    &&& r.loss_shade == (if crate::chart::loss_above(h.sent as nat, h.recv as nat, 20) {
        Shade::Red
    } else if crate::chart::loss_above(h.sent as nat, h.recv as nat, 0) {
        Shade::LightRed
    } else {
        Shade::Green
    })
    &&& r.sent@ == decimal(h.sent as nat)
    &&& r.recv@ == decimal(h.recv as nat)
    &&& r.last@ == (match h.last_rtt { Some(v) => ms1(v as nat), None => "*"@ })
    &&& r.avg@ == frac_ms1_or_star(h.recv > 0, avg)
    &&& r.best@ == ms1_or_star(h.recv > 0, seq_min(h.rtts@) as nat)
    &&& r.worst@ == ms1_or_star(h.recv > 0, seq_max(h.rtts@) as nat)
    &&& r.jitter@ == frac_ms1_or_star(h.recv > 1, spec_jitter(h.rtts@))
    &&& r.avg_shade == (if h.recv > 0 { Some(spec_rtt_color(avg)) } else { None })
    &&& r.country@ == (match h.geo_info {
        Some(g) => if g.country@ == "Local Network"@ { "Local"@ } else { g.country@ },
        None => "─"@,
    })
    &&& r.city@ == (match h.geo_info { Some(g) => g.city@, None => "─"@ })
    &&& r.asn@ == (match h.geo_info { Some(g) => g.asn@, None => "─"@ })
    &&& r.bar@ == spec_live_bar(avg, max, 16)
}

/// The Best cell of a live row shows the least round-trip time of the hop's
/// window and the Worst cell the greatest, each a time the window holds
/// (both "*" before any answer).
pub proof fn law_live_best_worst(r: LiveRow, h: HopStats, max: (nat, nat))
    requires
        live_row_of(r, h, max),
    ensures
        h.recv > 0 && h.rtts@.len() > 0 ==> exists|m: u64|
            h.rtts@.contains(m) && (forall|i: int| 0 <= i < h.rtts@.len() ==> m <= #[trigger] h.rtts@[i])
                && r.best@ == ms1(m as nat),
        h.recv > 0 && h.rtts@.len() > 0 ==> exists|m: u64|
            h.rtts@.contains(m) && (forall|i: int| 0 <= i < h.rtts@.len() ==> #[trigger] h.rtts@[i] <= m)
                && r.worst@ == ms1(m as nat),
        h.recv == 0 ==> r.best@ == "*"@ && r.worst@ == "*"@,
{
    if h.recv > 0 && h.rtts@.len() > 0 {
        crate::stats::lemma_min_max_members(h.rtts@);
        let lo = seq_min(h.rtts@);
        let hi = seq_max(h.rtts@);
        assert(r.best@ == ms1(lo as nat));
        assert(r.worst@ == ms1(hi as nat));
    }
}

fn ms1_or_star_string(shown: bool, v: u64) -> (s: String)
    ensures
        s@ == ms1_or_star(shown, v as nat),
{
    if shown { ms1_string(v) } else { string_from("*") }
}

fn frac_ms1_or_star_string(shown: bool, v: Ratio) -> (s: String)
    requires
        v.den > 0,
    ensures
        s@ == frac_ms1_or_star(shown, v@),
{
    if shown {
        let mut s = String::new();
        crate::chart::push_render_fixed(&mut s, div_round_even_wide(v.num, 100 * (v.den as u128)), 1);
        assert(s@ =~= frac_ms1(v@));
        s
    } else {
        string_from("*")
    }
}

/// The cells of a hop's row in the live table.
pub fn live_row(h: &HopStats, max: Ratio) -> (r: LiveRow)
    requires
        h.recv <= h.sent,
        value_fits(max@),
    ensures
        live_row_of(r, *h, max@),
{
    proof {
        lemma_avg_fits(*h);
    }
    let avg = h.avg_rtt();
    let (country, city, asn) = match &h.geo_info {
        Some(g) => {
            let c = if str_eq(g.country.as_str(), "Local Network") {
                string_from("Local")
            } else {
                g.country.clone()
            };
            (c, g.city.clone(), g.asn.clone())
        },
        None => (string_from("─"), string_from("─"), string_from("─")),
    };
    LiveRow {
        hop: decimal_string(h.hop_num as u64),
        ip: ip_text(h),
        hostname: host_text(h),
        loss: loss_string(h.sent, h.recv),
        loss_shade: crate::chart::table_loss_color(h.sent, h.recv),
        sent: decimal_string(h.sent as u64),
        recv: decimal_string(h.recv as u64),
        last: match h.last_rtt {
            Some(v) => ms1_string(v),
            None => string_from("*"),
        },
        avg: frac_ms1_or_star_string(h.recv > 0, avg),
        best: ms1_or_star_string(h.recv > 0, h.min_rtt()),
        worst: ms1_or_star_string(h.recv > 0, h.max_rtt()),
        jitter: frac_ms1_or_star_string(h.recv > 1, h.jitter()),
        avg_shade: if h.recv > 0 { Some(rtt_color(avg)) } else { None },
        country,
        city,
        asn,
        bar: heatmap_bar(avg, max, 16),
    }
}

/// What the live view shows: the heat column from 100 terminal columns on,
/// the location columns from 130 on, and the header text with its status.
#[derive(Clone, Debug)]
pub struct LiveLayout {
    pub show_heatmap: bool,
    pub show_geo: bool,
    /// " [DONE]" once the trace is over, " [PAUSED]" while paused, else empty.
    pub status: String,
    pub header: String,
}

/// The status text of the live view's header.
pub open spec fn spec_live_status(done: bool, paused: bool) -> Seq<char> {
    if done { " [DONE]"@ } else if paused { " [PAUSED]"@ } else { seq![] }
}

/// The header text of the live view.
pub open spec fn spec_live_header(target: Seq<char>, method: Seq<char>, status: Seq<char>) -> Seq<char> {
    " 🌐 RouteScope v0.1.0  │  Target: "@ + target + "  │  Method: "@ + method
        + "  │  [↑↓/jk] select  [Space] pause  [q] quit"@ + status
}

/// The layout of the live view on a terminal `width` columns wide.
pub fn live_layout(width: u16, done: bool, paused: bool, target: &str, method: &str) -> (l: LiveLayout)
    ensures
        l.show_heatmap == (width >= 100),
        l.show_geo == (width >= 130),
        l.status@ == spec_live_status(done, paused),
        l.header@ == spec_live_header(target@, method@, spec_live_status(done, paused)),
{
    let status = if done {
        string_from(" [DONE]")
    } else if paused {
        string_from(" [PAUSED]")
    } else {
        String::new()
    };
    let mut header = string_from(" 🌐 RouteScope v0.1.0  │  Target: ");
    append_str(&mut header, target);
    append_str(&mut header, "  │  Method: ");
    append_str(&mut header, method);
    append_str(&mut header, "  │  [↑↓/jk] select  [Space] pause  [q] quit");
    append_str(&mut header, status.as_str());
    LiveLayout { show_heatmap: width >= 100, show_geo: width >= 130, status, header }
}

/// A coordinate of `v` millionths of a degree written in degrees with four
/// decimals (rounded to nearest, halves to the even digit).
pub open spec fn degrees4(v: int) -> Seq<char> {
    let a = if v < 0 { -v } else { v };
    let t = div_round_even(a as nat, 100);
    (if v < 0 { seq!['-'] } else { seq![] }) + decimal(t / 10000) + seq!['.'] + padded_decimal(t % 10000, 4)
}

/// Writes a coordinate in degrees with four decimals.
pub fn degrees4_string(v: i64) -> (s: String)
    ensures
        s@ == degrees4(v as int),
{
    let mut s = String::new();
    let a: u64 = if v < 0 {
        if v == i64::MIN { 0x8000_0000_0000_0000u64 } else { (-v) as u64 }
    } else {
        v as u64
    };
    let t = div_round_even_wide(a as u128, 100) as u64;
    if v < 0 {
        push_char(&mut s, '-');
    }
    push_decimal(&mut s, t / 10000);
    push_char(&mut s, '.');
    push_padded_decimal(&mut s, t % 10000, 4);
    assert(s@ =~= degrees4(v as int));
    s
}

/// The text of the detail panel of the selected hop.
#[derive(Clone, Debug)]
pub struct DetailPanel {
    /// "Hop N — address" title text parts.
    pub title_ip: String,
    /// The host name, "N/A" when unknown or equal to the address text.
    pub hostname: String,
    /// "🏠 Local Network" / "🌍 Country", when the location is known.
    pub country: Option<String>,
    /// "lat, lon" in degrees with four decimals, when the location is known.
    pub lat_lon: Option<String>,
    /// The round-trip history in tenths of a millisecond, rounded down.
    pub spark: Vec<u64>,
    /// The loss in whole percent, rounded down, at most 100.
    pub gauge_percent: u16,
    /// "12.5% loss (7/8 pkts)".
    pub gauge_label: String,
    pub gauge_shade: Shade,
}

/// The detail panel of a hop.
pub fn detail_panel(h: &HopStats) -> (d: DetailPanel)
    requires
        h.recv <= h.sent,
    ensures
        d.title_ip@ == ip_cell(*h),
        d.hostname@ == (if host_cell(*h).len() == 0 { "N/A"@ } else { host_cell(*h) }),
        match h.geo_info {
            Some(g) => d.country is Some && d.country->0@ == (if g.country@ == "Local Network"@ {
                "🏠 "@
            } else {
                "🌍 "@
            }) + g.country@ && d.lat_lon is Some && d.lat_lon->0@ == degrees4(g.lat as int) + ", "@
                + degrees4(g.lon as int),
            None => d.country is None && d.lat_lon is None,
        },
        d.spark@.len() == h.rtts@.len(),
        forall|i: int| 0 <= i < d.spark@.len() ==> #[trigger] d.spark@[i] == h.rtts@[i] / 100,
        d.gauge_percent == (if h.sent == 0 { 0 } else { (h.sent - h.recv) * 100 / h.sent as int }),
        d.gauge_label@ == loss_text(h.sent as nat, h.recv as nat) + " loss ("@ + decimal(h.recv as nat)
            + "/"@ + decimal(h.sent as nat) + " pkts)"@,
        d.gauge_shade == (if crate::chart::loss_above(h.sent as nat, h.recv as nat, 20) {
            Shade::Red
        } else if crate::chart::loss_above(h.sent as nat, h.recv as nat, 5) {
            Shade::Yellow
        } else {
            Shade::Green
        }),
{
    let title_ip = ip_text(h);
    let host = host_text(h);
    let hostname = if host.as_str().is_empty() { string_from("N/A") } else { host };
    let (country, lat_lon) = match &h.geo_info {
        Some(g) => {
            let mut c = if str_eq(g.country.as_str(), "Local Network") {
                string_from("🏠 ")
            } else {
                string_from("🌍 ")
            };
            append_str(&mut c, g.country.as_str());
            let mut ll = degrees4_string(g.lat);
            append_str(&mut ll, ", ");
            let lon = degrees4_string(g.lon);
            append_str(&mut ll, lon.as_str());
            (Some(c), Some(ll))
        },
        None => (None, None),
    };
    let mut spark: Vec<u64> = Vec::new();
    let mut i: usize = 0;
    while i < h.rtts.len()
        invariant
            i <= h.rtts.len(),
            spark@.len() == i,
            forall|j: int| 0 <= j < i ==> #[trigger] spark@[j] == h.rtts@[j] / 100,
        decreases h.rtts.len() - i,
    {
        spark.push(h.rtts[i] / 100);
        i = i + 1;
    }
    let gauge_percent: u16 = if h.sent == 0 {
        0
    } else {
        let lost = (h.sent - h.recv) as u64;
        let num = lost * 100;
        let den = h.sent as u64;
        let p = num / den;
        assert(p <= 100) by (nonlinear_arith)
            requires
                num == lost * 100,
                p == num / den,
                lost <= den,
                den > 0,
        ;
        p as u16
    };
    let mut label = loss_string(h.sent, h.recv);
    append_str(&mut label, " loss (");
    let r = decimal_string(h.recv as u64);
    append_str(&mut label, r.as_str());
    append_str(&mut label, "/");
    let s = decimal_string(h.sent as u64);
    append_str(&mut label, s.as_str());
    append_str(&mut label, " pkts)");
    DetailPanel {
        title_ip,
        hostname,
        country,
        lat_lon,
        spark,
        gauge_percent,
        gauge_label: label,
        gauge_shade: crate::chart::gauge_loss_color(h.sent, h.recv),
    }
}

} // verus!

//! The summary printed after a non-interactive trace: one table row per probed
//! hop, and the route analysis (fastest, slowest, reliable and unreliable hops).

use vstd::prelude::*;
use crate::chart::{answered, heatmap_bar_simple, max_answered_avg, max_avg, spec_table_bar};
use crate::export::{loss_string, loss_text};
use crate::map::location_of;
use crate::stats::{frac_lt, lemma_avg_fits, ratio_lt, spec_avg, value_fits, HopStats, Ratio};
use crate::text::{str_eq, string_from};
use crate::util::{format_mean_ms, spec_format_mean};

verus! {

/// The cells of one row of the summary table.
#[derive(Clone, Debug)]
pub struct TableRow {
    pub hop_num: u8,
    /// The address, or "* * *" when no hop answered.
    pub ip: String,
    /// The host name when it differs from the address text, else empty.
    pub host: String,
    /// "Country, City" (or the country alone), "Unknown" without a location.
    pub location: String,
    /// The AS label, "N/A" without a location.
    pub asn: String,
    /// The mean round-trip time ("15.00 ms"), or "*" when nothing answered.
    pub rtt: String,
    /// The loss with one decimal and a percent sign.
    pub loss: String,
    /// The heat bar.
    pub bar: String,
}

/// The text shown for a hop's address.
pub open spec fn ip_cell(h: HopStats) -> Seq<char> {
    match h.ip {
        Some(ip) => ip.text(),
        None => "* * *"@,
    }
}

/// The host name shown for a hop: its name when it differs from the address
/// text, else nothing.
pub open spec fn host_cell(h: HopStats) -> Seq<char> {
    match h.hostname {
        Some(n) => if n@ != ip_cell(h) { n@ } else { seq![] },
        None => seq![],
    }
}

/// The row of a probed hop, with `max` the greatest mean round-trip time.
pub open spec fn row_of(r: TableRow, h: HopStats, max: (nat, nat)) -> bool {
    &&& r.hop_num == h.hop_num
    &&& r.ip@ == ip_cell(h)
    &&& r.host@ == host_cell(h)
    &&& r.location@ == (match h.geo_info { Some(g) => location_of(g), None => "Unknown"@ })
    &&& r.asn@ == (match h.geo_info { Some(g) => g.asn@, None => "N/A"@ })
    &&& r.rtt@ == (if h.recv > 0 { spec_format_mean(spec_avg(h.rtts@)) } else { "*"@ })
    &&& r.loss@ == loss_text(h.sent as nat, h.recv as nat)
    &&& r.bar@ == spec_table_bar(spec_avg(h.rtts@), max)
}

/// The hops that were probed at least once, in order.
pub open spec fn probed(hops: Seq<HopStats>) -> Seq<HopStats>
    decreases hops.len(),
{
    if hops.len() == 0 {
        seq![]
    } else if hops.last().sent > 0 {
        probed(hops.drop_last()).push(hops.last())
    } else {
        probed(hops.drop_last())
    }
}

/// The address text of a hop.
pub fn ip_text(h: &HopStats) -> (s: String)
    ensures
        s@ == ip_cell(*h),
{
    match &h.ip {
        Some(ip) => ip.to_text(),
        None => string_from("* * *"),
    }
}

/// The host name shown for a hop.
pub fn host_text(h: &HopStats) -> (s: String)
    ensures
        s@ == host_cell(*h),
{
    let ip = ip_text(h);
    match &h.hostname {
        Some(n) => if !str_eq(n.as_str(), ip.as_str()) {
            n.clone()
        } else {
            String::new()
        },
        None => String::new(),
    }
}

/// The rows of the summary table: one per probed hop, in order.
pub fn table_rows(hops: &Vec<HopStats>) -> (rows: Vec<TableRow>)
    requires
        forall|i: int| 0 <= i < hops@.len() ==> (#[trigger] hops@[i]).recv <= hops@[i].sent,
    ensures
        rows@.len() == probed(hops@).len(),
        forall|k: int|
            0 <= k < rows@.len() ==> row_of(
                #[trigger] rows@[k],
                probed(hops@)[k],
                max_avg(answered(hops@)),
            ),
{
    let max = max_answered_avg(hops);
    let mut rows: Vec<TableRow> = Vec::new();
    let mut i: usize = 0;
    while i < hops.len()
        invariant
            i <= hops.len(),
            forall|j: int| 0 <= j < hops@.len() ==> (#[trigger] hops@[j]).recv <= hops@[j].sent,
            max@ == max_avg(answered(hops@)),
            value_fits(max@),
            rows@.len() == probed(hops@.take(i as int)).len(),
            forall|k: int|
                0 <= k < rows@.len() ==> row_of(
                    #[trigger] rows@[k],
                    probed(hops@.take(i as int))[k],
                    max@,
                ),
        decreases hops.len() - i,
    {
        assert(hops@.take(i + 1).drop_last() =~= hops@.take(i as int));
        assert(hops@.take(i + 1).last() == hops@[i as int]);
        let h = &hops[i];
        if h.sent > 0 {
            let location = match &h.geo_info {
                Some(g) => crate::map::location_text(g),
                None => string_from("Unknown"),
            };
            let asn = match &h.geo_info {
                Some(g) => g.asn.clone(),
                None => string_from("N/A"),
            };
            proof {
                lemma_avg_fits(*h);
            }
            let avg = h.avg_rtt();
            let rtt = if h.recv > 0 {
                format_mean_ms(avg)
            } else {
                string_from("*")
            };
            let row = TableRow {
                hop_num: h.hop_num,
                ip: ip_text(h),
                host: host_text(h),
                location,
                asn,
                rtt,
                loss: loss_string(h.sent, h.recv),
                bar: heatmap_bar_simple(avg, max),
            };
            rows.push(row);
        }
        i = i + 1;
    }
    assert(hops@.take(hops.len() as int) =~= hops@);
    rows
}

/// An item to rank: its key (an exact fraction) and its position.
#[derive(Clone, Copy, Debug, PartialEq, Eq, Structural)]
pub struct Ranked {
    pub key: Ratio,
    pub idx: usize,
}

/// The ranking order: by key (descending when `key_desc`), then by position
/// (descending when `idx_desc`).
pub open spec fn ranks_before(a: Ranked, b: Ranked, key_desc: bool, idx_desc: bool) -> bool {
    (if key_desc { frac_lt(b.key@, a.key@) } else { frac_lt(a.key@, b.key@) }) || (frac_eq(a.key@, b.key@) && (if idx_desc {
        a.idx > b.idx
    } else {
        a.idx < b.idx
    }))
}

/// Equal fractions (positive denominators).
pub open spec fn frac_eq(a: (nat, nat), b: (nat, nat)) -> bool {
    a.0 * b.1 == b.0 * a.1
}

/// Keys whose values fit in `u64`.
pub open spec fn keys_fit(items: Seq<Ranked>) -> bool {
    forall|j: int| 0 <= j < items.len() ==> value_fits((#[trigger] items[j]).key@)
}

fn ranks_before_exec(a: Ranked, b: Ranked, key_desc: bool, idx_desc: bool) -> (r: bool)
    requires
        value_fits(a.key@),
        value_fits(b.key@),
    ensures
        r == ranks_before(a, b, key_desc, idx_desc),
{
    let lt = ratio_lt(a.key, b.key);
    let gt = ratio_lt(b.key, a.key);
    assert(!lt && !gt ==> frac_eq(a.key@, b.key@));
    (if key_desc { gt } else { lt }) || (!lt && !gt && (if idx_desc {
        a.idx > b.idx
    } else {
        a.idx < b.idx
    }))
}

/// `top` holds the first `min(k, |items|)` items of `items` in ranking order:
/// in that order, each taken from `items`, and every item left out ranks after
/// all of them. (Positions are distinct, so this fixes `top`.)
pub open spec fn is_top(top: Seq<Ranked>, items: Seq<Ranked>, k: nat, key_desc: bool, idx_desc: bool) -> bool {
    &&& top.len() == (if items.len() < k { items.len() } else { k })
    &&& forall|j: int| 0 <= j < top.len() ==> items.contains(#[trigger] top[j])
    &&& forall|j: int, l: int| 0 <= j < l < top.len() ==> ranks_before(top[j], top[l], key_desc, idx_desc)
    &&& forall|c: Ranked|
        items.contains(c) && !top.contains(c) ==> forall|j: int|
            0 <= j < top.len() ==> ranks_before(#[trigger] top[j], c, key_desc, idx_desc)
}

/// The first of the top items ranks before every other item: the fastest hop
/// has the least mean round-trip time, the slowest the greatest.
pub proof fn law_top_first_is_extreme(top: Seq<Ranked>, items: Seq<Ranked>, k: nat, key_desc: bool, idx_desc: bool)
    requires
        is_top(top, items, k, key_desc, idx_desc),
        top.len() > 0,
    ensures
        forall|c: Ranked| items.contains(c) && c != top[0] ==> ranks_before(top[0], c, key_desc, idx_desc),
        forall|c: Ranked|
            #[trigger] items.contains(c) ==> (if key_desc { !frac_lt(top[0].key@, c.key@) } else { !frac_lt(
                c.key@,
                top[0].key@,
            ) }),
{
    assert forall|c: Ranked| items.contains(c) && c != top[0] implies ranks_before(top[0], c, key_desc, idx_desc) by {
        if top.contains(c) {
            let j = choose|j: int| 0 <= j < top.len() && top[j] == c;
            assert(j != 0);
        }
    }
}

/// Positions of `items` are distinct.
pub open spec fn distinct_positions(items: Seq<Ranked>) -> bool {
    forall|a: int, b: int| 0 <= a < b < items.len() ==> items[a].idx != items[b].idx
}

/// Ranking is transitive.
proof fn lemma_ranks_trans(x: Ranked, y: Ranked, z: Ranked, key_desc: bool, idx_desc: bool)
    requires
        x.key.den > 0,
        y.key.den > 0,
        z.key.den > 0,
        ranks_before(x, y, key_desc, idx_desc),
        ranks_before(y, z, key_desc, idx_desc),
    ensures
        ranks_before(x, z, key_desc, idx_desc),
{
    let (x0, x1) = (x.key.num as int, x.key.den as int);
    let (y0, y1) = (y.key.num as int, y.key.den as int);
    let (z0, z1) = (z.key.num as int, z.key.den as int);
    // a <= b <= c with one of them strict gives a < c; a = b = c gives a = c
    assert(x0 * y1 <= y0 * x1 && y0 * z1 <= z0 * y1 ==> x0 * z1 <= z0 * x1) by (nonlinear_arith)
        requires
            x1 > 0,
            y1 > 0,
            z1 > 0,
            x0 >= 0,
            y0 >= 0,
            z0 >= 0,
    ;
    assert(x0 * y1 < y0 * x1 && y0 * z1 <= z0 * y1 ==> x0 * z1 < z0 * x1) by (nonlinear_arith)
        requires
            x1 > 0,
            y1 > 0,
            z1 > 0,
            x0 >= 0,
            y0 >= 0,
            z0 >= 0,
    ;
    assert(x0 * y1 <= y0 * x1 && y0 * z1 < z0 * y1 ==> x0 * z1 < z0 * x1) by (nonlinear_arith)
        requires
            x1 > 0,
            y1 > 0,
            z1 > 0,
            x0 >= 0,
            y0 >= 0,
            z0 >= 0,
    ;
    assert(x0 * y1 >= y0 * x1 && y0 * z1 >= z0 * y1 ==> x0 * z1 >= z0 * x1) by (nonlinear_arith)
        requires
            x1 > 0,
            y1 > 0,
            z1 > 0,
            x0 >= 0,
            y0 >= 0,
            z0 >= 0,
    ;
    assert(x0 * y1 > y0 * x1 && y0 * z1 >= z0 * y1 ==> x0 * z1 > z0 * x1) by (nonlinear_arith)
        requires
            x1 > 0,
            y1 > 0,
            z1 > 0,
            x0 >= 0,
            y0 >= 0,
            z0 >= 0,
    ;
    assert(x0 * y1 >= y0 * x1 && y0 * z1 > z0 * y1 ==> x0 * z1 > z0 * x1) by (nonlinear_arith)
        requires
            x1 > 0,
            y1 > 0,
            z1 > 0,
            x0 >= 0,
            y0 >= 0,
            z0 >= 0,
    ;
}

/// The first `k` items of `items` in ranking order.
pub fn top_ranked(items: &Vec<Ranked>, k: usize, key_desc: bool, idx_desc: bool) -> (top: Vec<Ranked>)
    requires
        distinct_positions(items@),
        keys_fit(items@),
    ensures
        is_top(top@, items@, k as nat, key_desc, idx_desc),
{
    let mut top: Vec<Ranked> = Vec::new();
    while top.len() < k
        invariant
            distinct_positions(items@),
            keys_fit(items@),
            top@.len() <= k,
            top@.len() <= items@.len(),
            forall|j: int| 0 <= j < top@.len() ==> items@.contains(#[trigger] top@[j]),
            forall|j: int, l: int| 0 <= j < l < top@.len() ==> ranks_before(top@[j], top@[l], key_desc, idx_desc),
            forall|c: Ranked|
                items@.contains(c) && !top@.contains(c) ==> forall|j: int|
                    0 <= j < top@.len() ==> ranks_before(#[trigger] top@[j], c, key_desc, idx_desc),
        decreases k - top@.len(),
    {
        // the best item not yet taken
        let mut best: Option<Ranked> = None;
        let mut i: usize = 0;
        while i < items.len()
            invariant
                i <= items.len(),
                distinct_positions(items@),
                keys_fit(items@),
                forall|j: int, l: int| 0 <= j < l < top@.len() ==> ranks_before(top@[j], top@[l], key_desc, idx_desc),
                forall|c: Ranked|
                    items@.contains(c) && !top@.contains(c) ==> forall|j: int|
                        0 <= j < top@.len() ==> ranks_before(#[trigger] top@[j], c, key_desc, idx_desc),
                match best {
                    Some(b) => items@.contains(b) && !top@.contains(b) && (exists|mb: int|
                        0 <= mb < i && items@[mb] == b) && forall|m: int|
                        0 <= m < i && !top@.contains(items@[m]) ==> b == items@[m] || ranks_before(
                            b,
                            #[trigger] items@[m],
                            key_desc,
                            idx_desc,
                        ),
                    None => forall|m: int| 0 <= m < i ==> top@.contains(#[trigger] items@[m]),
                },
            decreases items.len() - i,
        {
            let cand = items[i];
            let taken = contains_ranked(&top, cand);
            if !taken {
                match best {
                    Some(b) => {
                        let ghost mb = choose|mb: int| 0 <= mb < i && items@[mb] == b;
                        assert(value_fits(items@[mb].key@));
                        assert(value_fits(items@[i as int].key@));
                        if ranks_before_exec(cand, b, key_desc, idx_desc) {
                            best = Some(cand);
                            proof {
                                assert forall|m: int|
                                    0 <= m < i + 1 && !top@.contains(items@[m]) implies cand == items@[m]
                                    || ranks_before(cand, #[trigger] items@[m], key_desc, idx_desc) by {
                                    if m < i && b != items@[m] {
                                        assert(value_fits(items@[m].key@));
                                        lemma_ranks_trans(cand, b, items@[m], key_desc, idx_desc);
                                    }
                                }
                            }
                        } else {
                            proof {
                                assert(items@[mb].idx != items@[i as int].idx);
                            }
                        }
                    },
                    None => {
                        best = Some(cand);
                    },
                }
            }
            i = i + 1;
        }
        match best {
            Some(b) => {
                let ghost before = top@;
                proof {
                    assert forall|c: Ranked| items@.contains(c) && !before.contains(c) && c != b implies ranks_before(b, c, key_desc, idx_desc) by {
                        let m = choose|m: int| 0 <= m < items@.len() && items@[m] == c;
                        assert(items@[m] == c);
                        if c.idx == b.idx {
                            let mb = choose|mb: int| 0 <= mb < items@.len() && items@[mb] == b;
                            assert(items@[mb] == b);
                            if m != mb {
                                if m < mb {
                                    assert(items@[m].idx != items@[mb].idx);
                                } else {
                                    assert(items@[mb].idx != items@[m].idx);
                                }
                            }
                        }
                    }
                }
                top.push(b);
                proof {
                    assert forall|c: Ranked| items@.contains(c) && !top@.contains(c) implies forall|j: int|
                        0 <= j < top@.len() ==> ranks_before(#[trigger] top@[j], c, key_desc, idx_desc) by {
                        assert(!before.contains(c)) by {
                            if before.contains(c) {
                                let j = choose|j: int| 0 <= j < before.len() && before[j] == c;
                                assert(top@[j] == c);
                            }
                        }
                        assert(c != b) by {
                            assert(top@[before.len() as int] == b);
                        }
                        assert forall|j: int| 0 <= j < top@.len() implies ranks_before(#[trigger] top@[j], c, key_desc, idx_desc) by {
                            if j < before.len() {
                                assert(top@[j] == before[j]);
                            }
                        }
                    }
                    assert forall|j: int, l: int| 0 <= j < l < top@.len() implies ranks_before(top@[j], top@[l], key_desc, idx_desc) by {
                        if l == before.len() {
                            assert(top@[j] == before[j]);
                        } else {
                            assert(top@[j] == before[j] && top@[l] == before[l]);
                        }
                    }
                    assert forall|j: int| 0 <= j < top@.len() implies items@.contains(#[trigger] top@[j]) by {
                        if j < before.len() {
                            assert(top@[j] == before[j]);
                        }
                    }
                    lemma_distinct_members_bound(top@, items@, key_desc, idx_desc);
                }
            },
            None => {
                proof {
                    assert forall|c: Ranked| items@.contains(c) implies top@.contains(c) by {
                        let m = choose|m: int| 0 <= m < items@.len() && items@[m] == c;
                        assert(top@.contains(items@[m]));
                    }
                    lemma_all_taken_len(top@, items@, key_desc, idx_desc);
                }
                return top;
            },
        }
    }
    top
}

fn contains_ranked(v: &Vec<Ranked>, x: Ranked) -> (r: bool)
    ensures
        r == v@.contains(x),
{
    let mut i: usize = 0;
    while i < v.len()
        invariant
            i <= v.len(),
            forall|j: int| 0 <= j < i ==> v@[j] != x,
        decreases v.len() - i,
    {
        if v[i] == x {
            assert(v@[i as int] == x);
            return true;
        }
        i = i + 1;
    }
    false
}

/// A strictly ordered sequence of members of `items` is no longer than `items`.
proof fn lemma_distinct_members_bound(top: Seq<Ranked>, items: Seq<Ranked>, key_desc: bool, idx_desc: bool)
    requires
        forall|j: int| 0 <= j < top.len() ==> items.contains(#[trigger] top[j]),
        forall|j: int, l: int| 0 <= j < l < top.len() ==> ranks_before(top[j], top[l], key_desc, idx_desc),
    ensures
        top.len() <= items.len(),
{
    assert(top.no_duplicates()) by {
        assert forall|j: int, l: int| 0 <= j < top.len() && 0 <= l < top.len() && j != l implies top[j] != top[l] by {
            if j < l {
                assert(ranks_before(top[j], top[l], key_desc, idx_desc));
            } else {
                assert(ranks_before(top[l], top[j], key_desc, idx_desc));
            }
        }
    }
    top.unique_seq_to_set();
    items.lemma_cardinality_of_set();
    vstd::seq_lib::seq_to_set_is_finite(items);
    assert(top.to_set().subset_of(items.to_set())) by {
        assert forall|x: Ranked| top.to_set().contains(x) implies items.to_set().contains(x) by {
            let j = choose|j: int| 0 <= j < top.len() && top[j] == x;
            assert(items.contains(top[j]));
        }
    }
    vstd::set_lib::lemma_len_subset(top.to_set(), items.to_set());
}

/// When every member of `items` has been taken, `top` is as long as the
/// distinct items.
proof fn lemma_all_taken_len(top: Seq<Ranked>, items: Seq<Ranked>, key_desc: bool, idx_desc: bool)
    requires
        distinct_positions(items),
        forall|j: int| 0 <= j < top.len() ==> items.contains(#[trigger] top[j]),
        forall|j: int, l: int| 0 <= j < l < top.len() ==> ranks_before(top[j], top[l], key_desc, idx_desc),
        forall|c: Ranked| items.contains(c) ==> top.contains(c),
    ensures
        top.len() == items.len(),
{
    lemma_distinct_members_bound(top, items, key_desc, idx_desc);
    assert(items.no_duplicates()) by {
        assert forall|a: int, b: int| 0 <= a < items.len() && 0 <= b < items.len() && a != b implies items[a] != items[b] by {
            if a < b {
                assert(items[a].idx != items[b].idx);
            } else {
                assert(items[b].idx != items[a].idx);
            }
        }
    }
    assert(top.no_duplicates()) by {
        assert forall|j: int, l: int| 0 <= j < top.len() && 0 <= l < top.len() && j != l implies top[j] != top[l] by {
            if j < l {
                assert(ranks_before(top[j], top[l], key_desc, idx_desc));
            } else {
                assert(ranks_before(top[l], top[j], key_desc, idx_desc));
            }
        }
    }
    items.unique_seq_to_set();
    top.unique_seq_to_set();
    assert(items.to_set() =~= top.to_set()) by {
        assert forall|x: Ranked| items.to_set().contains(x) implies top.to_set().contains(x) by {
            assert(items.contains(x));
        }
        assert forall|x: Ranked| top.to_set().contains(x) implies items.to_set().contains(x) by {
            let j = choose|j: int| 0 <= j < top.len() && top[j] == x;
            assert(items.contains(top[j]));
        }
    }
}

/// The speed items: (mean round-trip time, index) of each hop that was probed
/// and answered, in hop order.
pub open spec fn speed_items(hops: Seq<HopStats>) -> Seq<Ranked>
    decreases hops.len(),
{
    if hops.len() == 0 {
        seq![]
    } else {
        let rest = speed_items(hops.drop_last());
        let h = hops.last();
        if h.sent > 0 && h.recv > 0 {
            rest.push(
                Ranked {
                    key: Ratio { num: spec_avg(h.rtts@).0 as u128, den: spec_avg(h.rtts@).1 as u64 },
                    idx: (hops.len() - 1) as usize,
                },
            )
        } else {
            rest
        }
    }
}

/// The mean round-trip time of a hop as (sum, count), the count being 1 for
/// an empty window.
pub open spec fn hop_mean(h: HopStats) -> (nat, nat) {
    (crate::stats::seq_sum(h.rtts@), if h.rtts@.len() == 0 { 1 } else { h.rtts@.len() })
}

/// A hop that was probed and answered.
pub open spec fn answering(h: HopStats) -> bool {
    h.sent > 0 && h.recv > 0
}

/// A hop list and windows whose lengths fit a `usize`, as every `Vec`'s do.
pub open spec fn windows_fit(hops: Seq<HopStats>) -> bool {
    &&& hops.len() <= usize::MAX
    &&& forall|i: int| 0 <= i < hops.len() ==> (#[trigger] hops[i]).rtts@.len() <= usize::MAX
}

/// The speed items are exactly the answering hops, in hop order, each keyed
/// by its mean round-trip time: the sum of its window over the window's
/// length.
pub proof fn law_speed_keys_are_means(hops: Seq<HopStats>)
    requires
        windows_fit(hops),
    ensures
        forall|j: int|
            0 <= j < speed_items(hops).len() ==> {
                let it = #[trigger] speed_items(hops)[j];
                &&& it.idx < hops.len()
                &&& answering(hops[it.idx as int])
                &&& it.key@ == hop_mean(hops[it.idx as int])
            },
        forall|i: int|
            0 <= i < hops.len() && answering(#[trigger] hops[i]) ==> exists|j: int|
                0 <= j < speed_items(hops).len() && speed_items(hops)[j].idx == i,
    decreases hops.len(),
{
    if hops.len() > 0 {
        let init = hops.drop_last();
        assert(windows_fit(init)) by {
            assert forall|i: int| 0 <= i < init.len() implies (#[trigger] init[i]).rtts@.len() <= usize::MAX by {
                assert(init[i] == hops[i]);
            }
        }
        law_speed_keys_are_means(init);
        let h = hops.last();
        let n = hops.len() - 1;
        assert(h == hops[n]);
        let rest = speed_items(init);
        if answering(h) {
            crate::stats::lemma_sum_le_len_max(h.rtts@);
            let len = h.rtts@.len();
            assert(len * u64::MAX <= usize::MAX * u64::MAX) by (nonlinear_arith)
                requires
                    len <= usize::MAX,
            ;
            assert(usize::MAX * u64::MAX < 0x1_0000_0000_0000_0000_0000_0000_0000_0000);
            assert(usize::MAX <= u64::MAX);
            assert(crate::stats::seq_sum(h.rtts@) < 0x1_0000_0000_0000_0000_0000_0000_0000_0000);
            assert(speed_items(hops)[rest.len() as int].key@ == hop_mean(h));
        }
        assert forall|j: int| 0 <= j < speed_items(hops).len() implies {
            let it = #[trigger] speed_items(hops)[j];
            &&& it.idx < hops.len()
            &&& answering(hops[it.idx as int])
            &&& it.key@ == hop_mean(hops[it.idx as int])
        } by {
            if j < rest.len() {
                assert(speed_items(hops)[j] == rest[j]);
                assert(hops[rest[j].idx as int] == init[rest[j].idx as int]);
            }
        }
        assert forall|i: int| 0 <= i < hops.len() && answering(#[trigger] hops[i]) implies exists|j: int|
            0 <= j < speed_items(hops).len() && speed_items(hops)[j].idx == i by {
            if i < n {
                assert(init[i] == hops[i]);
                let j = choose|j: int| 0 <= j < rest.len() && rest[j].idx == i;
                assert(speed_items(hops)[j] == rest[j]);
            } else {
                assert(speed_items(hops)[rest.len() as int].idx == i);
            }
        }
    }
}

/// The first of the fastest hops has the least mean round-trip time among all
/// answering hops, and the first of the slowest hops the greatest.
pub proof fn law_fastest_slowest_by_mean(hops: Seq<HopStats>, top: Seq<Ranked>, k: nat, slowest: bool)
    requires
        windows_fit(hops),
        is_top(top, speed_items(hops), k, slowest, slowest),
        top.len() > 0,
    ensures
        top[0].idx < hops.len(),
        answering(hops[top[0].idx as int]),
        forall|i: int|
            0 <= i < hops.len() && answering(#[trigger] hops[i]) ==> {
                let a = hop_mean(hops[top[0].idx as int]);
                let b = hop_mean(hops[i]);
                if slowest { b.0 * a.1 <= a.0 * b.1 } else { a.0 * b.1 <= b.0 * a.1 }
            },
{
    let items = speed_items(hops);
    law_speed_keys_are_means(hops);
    law_top_first_is_extreme(top, items, k, slowest, slowest);
    assert(items.contains(top[0]));
    let j0 = choose|j: int| 0 <= j < items.len() && items[j] == top[0];
    assert(items[j0] == top[0]);
    assert forall|i: int| 0 <= i < hops.len() && answering(#[trigger] hops[i]) implies {
        let a = hop_mean(hops[top[0].idx as int]);
        let b = hop_mean(hops[i]);
        if slowest { b.0 * a.1 <= a.0 * b.1 } else { a.0 * b.1 <= b.0 * a.1 }
    } by {
        let j = choose|j: int| 0 <= j < items.len() && items[j].idx == i;
        assert(items.contains(items[j]));
    }
}

/// The loss items: (lost probes over probes sent, index) of each probed hop
/// that lost probes, in hop order.
pub open spec fn loss_items(hops: Seq<HopStats>) -> Seq<Ranked>
    decreases hops.len(),
{
    if hops.len() == 0 {
        seq![]
    } else {
        let rest = loss_items(hops.drop_last());
        let h = hops.last();
        if h.sent > 0 && h.recv < h.sent {
            rest.push(
                Ranked {
                    key: Ratio { num: (h.sent - h.recv) as u128, den: h.sent as u64 },
                    idx: (hops.len() - 1) as usize,
                },
            )
        } else {
            rest
        }
    }
}

/// The numbers of the probed hops that lost nothing, in hop order.
pub open spec fn reliable_hops(hops: Seq<HopStats>) -> Seq<u8>
    decreases hops.len(),
{
    if hops.len() == 0 {
        seq![]
    } else {
        let rest = reliable_hops(hops.drop_last());
        let h = hops.last();
        if h.sent > 0 && h.recv == h.sent { rest.push(h.hop_num) } else { rest }
    }
}

/// The route performance analysis of a finished trace.
#[derive(Clone, Debug)]
pub struct RouteAnalysis {
    /// The three answering hops with the lowest mean round-trip time, fastest
    /// first (ties in hop order).
    pub fastest: Vec<Ranked>,
    /// The three answering hops with the highest mean round-trip time, slowest
    /// first (ties in reverse hop order).
    pub slowest: Vec<Ranked>,
    /// Numbers of the probed hops without loss.
    pub reliable: Vec<u8>,
    /// The three hops with the highest loss, highest first (ties in hop order).
    pub unreliable: Vec<Ranked>,
}

/// The route performance analysis: `None` when no probed hop answered.
pub fn route_analysis(hops: &Vec<HopStats>) -> (a: Option<RouteAnalysis>)
    requires
        forall|i: int| 0 <= i < hops@.len() ==> (#[trigger] hops@[i]).recv <= hops@[i].sent,
    ensures
        match a {
            None => speed_items(hops@).len() == 0,
            Some(r) => {
                &&& speed_items(hops@).len() > 0
                &&& is_top(r.fastest@, speed_items(hops@), 3, false, false)
                &&& is_top(r.slowest@, speed_items(hops@), 3, true, true)
                &&& r.reliable@ == reliable_hops(hops@)
                &&& is_top(r.unreliable@, loss_items(hops@), 3, true, false)
            },
        },
{
    let mut speed: Vec<Ranked> = Vec::new();
    let mut losses: Vec<Ranked> = Vec::new();
    let mut reliable: Vec<u8> = Vec::new();
    let mut i: usize = 0;
    while i < hops.len()
        invariant
            i <= hops.len(),
            forall|j: int| 0 <= j < hops@.len() ==> (#[trigger] hops@[j]).recv <= hops@[j].sent,
            speed@ == speed_items(hops@.take(i as int)),
            keys_fit(speed@),
            keys_fit(losses@),
            losses@ == loss_items(hops@.take(i as int)),
            reliable@ == reliable_hops(hops@.take(i as int)),
            forall|j: int| 0 <= j < speed@.len() ==> (#[trigger] speed@[j]).idx < i,
            forall|j: int| 0 <= j < losses@.len() ==> (#[trigger] losses@[j]).idx < i,
            distinct_positions(speed@),
            distinct_positions(losses@),
        decreases hops.len() - i,
    {
        assert(hops@.take(i + 1).drop_last() =~= hops@.take(i as int));
        assert(hops@.take(i + 1).last() == hops@[i as int]);
        let h = &hops[i];
        if h.sent > 0 && h.recv > 0 {
            proof {
                lemma_avg_fits(*h);
            }
            let ghost before = speed@;
            speed.push(Ranked { key: h.avg_rtt(), idx: i });
            assert(forall|j: int| 0 <= j < before.len() ==> speed@[j] == before[j]);
        }
        if h.sent > 0 && h.recv < h.sent {
            let ghost before = losses@;
            losses.push(Ranked { key: Ratio { num: (h.sent - h.recv) as u128, den: h.sent as u64 }, idx: i });
            assert(forall|j: int| 0 <= j < before.len() ==> losses@[j] == before[j]);
        }
        if h.sent > 0 && h.recv == h.sent {
            reliable.push(h.hop_num);
        }
        i = i + 1;
    }
    assert(hops@.take(hops.len() as int) =~= hops@);
    if speed.len() == 0 {
        return None;
    }
    let fastest = top_ranked(&speed, 3, false, false);
    let slowest = top_ranked(&speed, 3, true, true);
    let unreliable = top_ranked(&losses, 3, true, false);
    Some(RouteAnalysis { fastest, slowest, reliable, unreliable })
}

} // verus!

//! A host's interfaces in their order, and as a table.
use vstd::prelude::*;
use vstd::string::*;
use crate::nic::classify::{rank_of, role_rank};
use crate::protocol::{HostInfo, HostInfoView, NicInfo, NicInfoView};
use crate::text::{
    begins, cat2, cat7, decimal, decimal_text, group_views, is_text_before, join, joined,
    lemma_text_before_irreflexive, lemma_text_before_transitive, lemma_text_total, starts_with,
    text_before, texts, views,
};

verus! {

/// Whether an address starts with one of the prefixes that are not empty; any address does where
/// there are no prefixes.
pub open spec fn prefix_matches(ip: Seq<char>, prefixes: Seq<Seq<char>>) -> bool {
    prefixes.len() == 0 || exists|i: int|
        0 <= i < prefixes.len() && (#[trigger] prefixes[i]).len() > 0 && begins(ip, prefixes[i])
}

/// Whether an address starts with one of the prefixes.
pub fn ipv4_match(ip: &str, prefixes: &Vec<String>) -> (r: bool)
    ensures
        r == prefix_matches(ip@, texts(prefixes@)),
{
    let ghost list = texts(prefixes@);
    assert(list.len() == prefixes@.len());
    if prefixes.len() == 0 {
        return true;
    }
    let mut i: usize = 0;
    while i < prefixes.len()
        invariant
            i <= prefixes@.len(),
            list == texts(prefixes@),
            list.len() == prefixes@.len(),
            forall|k: int|
                0 <= k < i ==> !((#[trigger] list[k]).len() > 0 && begins(ip@, list[k])),
        decreases prefixes@.len() - i,
    {
        assert(list[i as int] == prefixes@[i as int]@);
        if !prefixes[i].as_str().is_empty() && starts_with(ip, prefixes[i].as_str()) {
            return true;
        }
        i += 1;
    }
    false
}

// ---------------------------------------------------------------------------
// Order
// ---------------------------------------------------------------------------

/// Whether an interface comes before another: by the rank of its role, then by its name.
pub open spec fn nic_before(a: NicInfoView, b: NicInfoView) -> bool {
    rank_of(a.role) < rank_of(b.role) || (rank_of(a.role) == rank_of(b.role) && text_before(
        a.name,
        b.name,
        0,
    ))
}

/// Whether an interface comes before another.
pub fn is_nic_before(a: &NicInfo, b: &NicInfo) -> (r: bool)
    ensures
        r == nic_before(a@, b@),
{
    let x: usize = role_rank(a.role.as_str());
    let y: usize = role_rank(b.role.as_str());
    x < y || (x == y && is_text_before(a.name.as_str(), b.name.as_str()))
}

/// Where an interface goes among the first `k` that are placed: behind all that it does not come
/// before.
pub open spec fn nic_slot(placed: Seq<NicInfoView>, nic: NicInfoView, k: int) -> int
    decreases k,
{
    if k <= 0 {
        0
    } else if !nic_before(nic, placed[k - 1]) {
        k
    } else {
        nic_slot(placed, nic, k - 1)
    }
}

/// The first `n` interfaces in their order.
pub open spec fn ordered_to(nics: Seq<NicInfoView>, n: int) -> Seq<NicInfoView>
    decreases n,
{
    if n <= 0 {
        Seq::empty()
    } else {
        let placed = ordered_to(nics, n - 1);
        placed.insert(nic_slot(placed, nics[n - 1], placed.len() as int), nics[n - 1])
    }
}

/// The interfaces in their order.
pub open spec fn ordered(nics: Seq<NicInfoView>) -> Seq<NicInfoView> {
    ordered_to(nics, nics.len() as int)
}

proof fn lemma_nic_slot(placed: Seq<NicInfoView>, nic: NicInfoView, k: int)
    requires
        0 <= k <= placed.len(),
    ensures
        0 <= nic_slot(placed, nic, k) <= k,
        nic_slot(placed, nic, k) > 0 ==> !nic_before(nic, placed[nic_slot(placed, nic, k) - 1]),
        forall|i: int|
            nic_slot(placed, nic, k) <= i < k ==> nic_before(nic, #[trigger] placed[i]),
    decreases k,
{
    if k > 0 && nic_before(nic, placed[k - 1]) {
        lemma_nic_slot(placed, nic, k - 1);
    }
}

/// What does not come after a second, which does not come after a third, does not come after the
/// third.
proof fn lemma_nic_order(a: NicInfoView, b: NicInfoView, c: NicInfoView)
    requires
        !nic_before(b, a),
        !nic_before(c, b),
    ensures
        !nic_before(c, a),
{
    if nic_before(c, a) {
        lemma_text_total(a.name, b.name, 0);
        lemma_text_total(b.name, c.name, 0);
        if rank_of(a.role) == rank_of(b.role) && rank_of(b.role) == rank_of(c.role) {
            if text_before(a.name, b.name, 0) {
                if text_before(b.name, c.name, 0) {
                    lemma_text_before_transitive(a.name, b.name, c.name, 0);
                }
                lemma_text_before_irreflexive(a.name, c.name, 0);
            } else {
                assert(a.name == b.name);
            }
        }
    }
}

proof fn lemma_ordered_to(nics: Seq<NicInfoView>, n: int)
    requires
        0 <= n <= nics.len(),
    ensures
        ordered_to(nics, n).len() == n,
        forall|i: int, j: int|
            0 <= i < j < n ==> !nic_before(
                #[trigger] ordered_to(nics, n)[j],
                #[trigger] ordered_to(nics, n)[i],
            ),
        ordered_to(nics, n).to_multiset() =~= nics.take(n).to_multiset(),
    decreases n,
{
    if n > 0 {
        lemma_ordered_to(nics, n - 1);
        let placed = ordered_to(nics, n - 1);
        let nic = nics[n - 1];
        lemma_nic_slot(placed, nic, placed.len() as int);
        let at = nic_slot(placed, nic, placed.len() as int);
        let all = ordered_to(nics, n);
        assert(all == placed.insert(at, nic));
        assert forall|i: int, j: int| 0 <= i < j < n implies !nic_before(
            #[trigger] all[j],
            #[trigger] all[i],
        ) by {
            let a = if i < at {
                i
            } else {
                i - 1
            };
            let b = if j < at {
                j
            } else {
                j - 1
            };
            if i != at && j != at {
                assert(all[i] == placed[a] && all[j] == placed[b]);
            } else if j == at {
                assert(all[i] == placed[i]);
                if i < at - 1 {
                    assert(!nic_before(placed[at - 1], placed[i]));
                    lemma_nic_order(placed[i], placed[at - 1], nic);
                }
            } else {
                assert(all[j] == placed[j - 1]);
                assert(nic_before(nic, placed[j - 1]));
                lemma_nic_before_irreflexive(nic, placed[j - 1]);
            }
        }
        assert(nics.take(n) =~= nics.take(n - 1).push(nic));
        vstd::seq_lib::to_multiset_insert(placed, at, nic);
        vstd::seq_lib::to_multiset_build(nics.take(n - 1), nic);
    } else {
        assert(nics.take(0) =~= Seq::<NicInfoView>::empty());
    }
}

proof fn lemma_nic_before_irreflexive(a: NicInfoView, b: NicInfoView)
    requires
        nic_before(a, b),
    ensures
        !nic_before(b, a),
{
    if rank_of(a.role) == rank_of(b.role) {
        lemma_text_before_irreflexive(a.name, b.name, 0);
    }
}

/// Whether an interface has a rank and a name.
pub open spec fn has_place(nic: NicInfoView, rank: usize, name: Seq<char>) -> bool {
    rank_of(nic.role) == rank && nic.name == name
}

/// The interfaces of a rank and a name, in the order in which they stand.
pub open spec fn of_place(nics: Seq<NicInfoView>, rank: usize, name: Seq<char>) -> Seq<NicInfoView> {
    nics.filter(|nic: NicInfoView| has_place(nic, rank, name))
}

proof fn lemma_none_of_place(nics: Seq<NicInfoView>, rank: usize, name: Seq<char>)
    requires
        forall|k: int| 0 <= k < nics.len() ==> !has_place(#[trigger] nics[k], rank, name),
    ensures
        of_place(nics, rank, name) == Seq::<NicInfoView>::empty(),
    decreases nics.len(),
{
    reveal(Seq::filter);
    if nics.len() > 0 {
        assert forall|k: int| 0 <= k < nics.drop_last().len() implies !has_place(
            #[trigger] nics.drop_last()[k],
            rank,
            name,
        ) by {
            assert(nics.drop_last()[k] == nics[k]);
        }
        lemma_none_of_place(nics.drop_last(), rank, name);
        assert(!has_place(nics[nics.len() - 1], rank, name));
    }
}

proof fn lemma_ordered_is_stable(nics: Seq<NicInfoView>, n: int, rank: usize, name: Seq<char>)
    requires
        0 <= n <= nics.len(),
    ensures
        of_place(ordered_to(nics, n), rank, name) == of_place(nics.take(n), rank, name),
    decreases n,
{
    let p = |nic: NicInfoView| has_place(nic, rank, name);
    if n > 0 {
        lemma_ordered_is_stable(nics, n - 1, rank, name);
        lemma_ordered_to(nics, n - 1);
        let placed = ordered_to(nics, n - 1);
        let nic = nics[n - 1];
        lemma_nic_slot(placed, nic, placed.len() as int);
        let at = nic_slot(placed, nic, placed.len() as int);
        let (head, tail) = (placed.take(at), placed.skip(at));
        assert(placed.insert(at, nic) =~= head + seq![nic] + tail);
        assert(placed =~= head + tail);
        assert(nics.take(n) =~= nics.take(n - 1) + seq![nic]);
        Seq::filter_distributes_over_add(head + seq![nic], tail, p);
        Seq::filter_distributes_over_add(head, seq![nic], p);
        Seq::filter_distributes_over_add(head, tail, p);
        Seq::filter_distributes_over_add(nics.take(n - 1), seq![nic], p);
        if p(nic) {
            assert forall|k: int| 0 <= k < tail.len() implies !has_place(
                #[trigger] tail[k],
                rank,
                name,
            ) by {
                assert(tail[k] == placed[at + k]);
                assert(nic_before(nic, placed[at + k]));
                if has_place(tail[k], rank, name) {
                    lemma_text_before_irreflexive(nic.name, tail[k].name, 0);
                }
            }
            lemma_none_of_place(tail, rank, name);
        } else {
            lemma_none_of_place(seq![nic], rank, name);
        }
        let one = seq![nic].filter(p);
        assert(head.filter(p) + one + tail.filter(p) =~= head.filter(p) + tail.filter(p) + one);
    } else {
        assert(nics.take(0) =~= Seq::<NicInfoView>::empty());
    }
}

/// In order, no interface comes before an earlier one, they are the same interfaces, and those that
/// nothing tells apart, being of the same rank and name, keep the order in which they were found.
pub proof fn lemma_order_sorts(nics: Seq<NicInfoView>)
    ensures
        forall|rank: usize, name: Seq<char>| #[trigger]
            of_place(ordered(nics), rank, name) == of_place(nics, rank, name),
        forall|i: int, j: int|
            0 <= i < j < nics.len() ==> !nic_before(
                #[trigger] ordered(nics)[j],
                #[trigger] ordered(nics)[i],
            ),
        ordered(nics).to_multiset() =~= nics.to_multiset(),
{
    lemma_ordered_to(nics, nics.len() as int);
    assert(nics.take(nics.len() as int) =~= nics);
    assert forall|rank: usize, name: Seq<char>| #[trigger]
        of_place(ordered(nics), rank, name) == of_place(nics, rank, name) by {
        lemma_ordered_is_stable(nics, nics.len() as int, rank, name);
    }
}

/// The host that a scan found: its interfaces in their order.
pub fn scan_host(hostname: String, os: String, found: Vec<NicInfo>) -> (r: HostInfo)
    ensures
        r@ == (HostInfoView { hostname: hostname@, os: os@, interfaces: ordered(views(found@)) }),
{
    broadcast use group_views;

    let ghost all = views(found@);
    let mut placed: Vec<NicInfo> = Vec::new();
    for nic in it: found
        invariant
            it.seq() == found@,
            all == views(found@),
            views(placed@) == ordered_to(all, it.index@ as int),
    {
        let ghost n = it.index@ as int;
        assert(all[n] == nic@);
        let ghost before = views(placed@);
        assert(before.len() == placed@.len());
        let mut k: usize = placed.len();
        while k > 0 && is_nic_before(&nic, &placed[k - 1])
            invariant
                k <= placed@.len(),
                before == views(placed@),
                before.len() == placed@.len(),
                nic_slot(before, nic@, before.len() as int) == nic_slot(before, nic@, k as int),
            decreases k,
        {
            assert(before[k - 1] == placed@[k - 1]@);
            k -= 1;
        }
        proof {
            if k > 0 {
                assert(before[k - 1] == placed@[k - 1]@);
            }
        }
        let ghost shown = nic@;
        placed.insert(k, nic);
        assert(views(placed@) =~= before.insert(k as int, shown));
    }
    HostInfo { hostname, os, interfaces: placed }
}

// ---------------------------------------------------------------------------
// The table
// ---------------------------------------------------------------------------

/// A number of spaces.
pub open spec fn spaces(n: nat) -> Seq<char> {
    Seq::new(n, |i: int| ' ')
}

/// A text with spaces behind it up to a width.
pub open spec fn padded(s: Seq<char>, width: nat) -> Seq<char> {
    if s.len() < width {
        s + spaces((width - s.len()) as nat)
    } else {
        s
    }
}

/// A text with spaces behind it up to a width.
pub fn pad(s: &str, width: usize) -> (r: String)
    ensures
        r@ == padded(s@, width as nat),
{
    let mut r = String::from_str(s);
    let mut n: usize = s.unicode_len();
    let ghost len = s@.len();
    assert(s@ + spaces(0) =~= s@);
    while n < width
        invariant
            len == s@.len(),
            len <= n,
            n <= width || n == len,
            r@ == s@ + spaces((n - len) as nat),
        decreases width - n,
    {
        r.push(' ');
        assert((s@ + spaces((n - len) as nat)).push(' ') =~= s@ + spaces((n + 1 - len) as nat));
        n += 1;
    }
    r
}

/// A list of one text where there is something to say.
pub open spec fn said_if(condition: bool, text: Seq<char>) -> Seq<Seq<char>> {
    if condition {
        seq![text]
    } else {
        Seq::empty()
    }
}

/// What the table says of an interface beyond its role, name and address.
pub open spec fn row_extra(nic: NicInfo) -> Seq<Seq<char>> {
    said_if(nic.speed_mbps > 0, decimal(nic.speed_mbps as nat) + "Mbps"@) + said_if(
        nic.wifi_band@.len() > 0,
        nic.wifi_band@,
    ) + said_if(nic.gateway_v4@.len() > 0, "gw:"@ + nic.gateway_v4@) + said_if(
        nic.ipv6_ll@.len() > 0,
        "v6:"@ + nic.ipv6_ll@,
    )
}

/// The line of the table for the `i`th interface.
pub open spec fn nic_row(nic: NicInfo, i: int) -> Seq<char> {
    "  ["@ + decimal((i + 1) as nat) + "] "@ + padded(nic.role@, 10) + " "@ + padded(nic.name@, 16)
        + " "@ + padded(nic.ipv4@, 16) + " "@ + joined(row_extra(nic), " | "@) + "\n"@
}

/// The line of the table for the `i`th interface.
pub fn row_of_nic(nic: &NicInfo, i: usize) -> (r: String)
    requires
        i < usize::MAX,
    ensures
        r@ == nic_row(*nic, i as int),
{
    broadcast use group_views;

    let mut extra: Vec<String> = Vec::new();
    if nic.speed_mbps > 0 {
        let number = decimal_text(nic.speed_mbps);
        extra.push(cat2(number.as_str(), "Mbps"));
    }
    if !nic.wifi_band.as_str().is_empty() {
        extra.push(nic.wifi_band.clone());
    }
    if !nic.gateway_v4.as_str().is_empty() {
        extra.push(cat2("gw:", nic.gateway_v4.as_str()));
    }
    if !nic.ipv6_ll.as_str().is_empty() {
        extra.push(cat2("v6:", nic.ipv6_ll.as_str()));
    }
    assert(texts(extra@) =~= row_extra(*nic));
    let number = decimal_text((i + 1) as u64);
    let role = pad(nic.role.as_str(), 10);
    let name = pad(nic.name.as_str(), 16);
    let ipv4 = pad(nic.ipv4.as_str(), 16);
    let rest = join(&extra, " | ");
    let mut row = cat7("  [", number.as_str(), "] ", role.as_str(), " ", name.as_str(), " ");
    row.append(ipv4.as_str());
    row.append(" ");
    row.append(rest.as_str());
    row.append("\n");
    row
}

/// The head of the table and the lines for the first `n` interfaces.
pub open spec fn table_to(side: Seq<char>, host: HostInfo, n: int) -> Seq<char>
    decreases n,
{
    if n <= 0 {
        side + " "@ + host.hostname@ + " ("@ + host.os@ + ")：\n"@
    } else {
        table_to(side, host, n - 1) + nic_row(host.interfaces@[n - 1], n - 1)
    }
}

/// A host's interfaces as a table.
pub fn format_nic_table(side: &str, host: &HostInfo) -> (r: String)
    ensures
        r@ == if host.interfaces@.len() == 0 {
            table_to(side@, *host, 0)
                + "  (未发现匹配的网卡，请检查网线/WiFi连接 和 ipv4_prefixes 配置)\n"@
        } else {
            table_to(side@, *host, host.interfaces@.len() as int)
        },
{
    let mut s = crate::text::cat6(
        side,
        " ",
        host.hostname.as_str(),
        " (",
        host.os.as_str(),
        ")：\n",
    );
    if host.interfaces.len() == 0 {
        s.append("  (未发现匹配的网卡，请检查网线/WiFi连接 和 ipv4_prefixes 配置)\n");
        return s;
    }
    let mut i: usize = 0;
    while i < host.interfaces.len()
        invariant
            i <= host.interfaces@.len(),
            s@ == table_to(side@, *host, i as int),
        decreases host.interfaces@.len() - i,
    {
        let row = row_of_nic(&host.interfaces[i], i);
        s.append(row.as_str());
        i += 1;
    }
    s
}

} // verus!

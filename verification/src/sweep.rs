//! Parameter axes and their combinations.
use vstd::prelude::*;
use vstd::string::*;
use crate::config::{UdpProfile, UdpProfileView};
use crate::text::{copy_opt_text, copy_texts, group_views, lists, opt_text, owned, texts, views};
use crate::validate::{cleaned, cleaned_list};

verus! {

// ---------------------------------------------------------------------------
// First occurrences
// ---------------------------------------------------------------------------

/// The first `n` items, each kept only where it first occurs.
pub open spec fn deduped_to<T>(s: Seq<T>, n: int) -> Seq<T>
    decreases n,
{
    if n <= 0 {
        Seq::empty()
    } else if deduped_to(s, n - 1).contains(s[n - 1]) {
        deduped_to(s, n - 1)
    } else {
        deduped_to(s, n - 1).push(s[n - 1])
    }
}

/// The items, each kept only where it first occurs.
pub open spec fn deduped<T>(s: Seq<T>) -> Seq<T> {
    deduped_to(s, s.len() as int)
}

proof fn lemma_deduped_to<T>(s: Seq<T>, n: int)
    requires
        0 <= n <= s.len(),
    ensures
        deduped_to(s, n).no_duplicates(),
        forall|x: T| #[trigger] deduped_to(s, n).contains(x) <==> s.take(n).contains(x),
    decreases n,
{
    if n > 0 {
        lemma_deduped_to(s, n - 1);
        let before = deduped_to(s, n - 1);
        let last = s[n - 1];
        assert forall|x: T| #[trigger]
            deduped_to(s, n).contains(x) <==> s.take(n).contains(x) by {
            assert(s.take(n) =~= s.take(n - 1).push(last));
            if deduped_to(s, n).contains(x) {
                if before.contains(x) {
                    assert(s.take(n - 1).contains(x));
                    let head = s.take(n - 1);
                    let k = choose|k: int| 0 <= k < head.len() && head[k] == x;
                    assert(s.take(n)[k] == x);
                } else {
                    assert(x == last);
                    assert(s.take(n)[n - 1] == x);
                }
            }
            if s.take(n).contains(x) {
                let head = s.take(n);
                let k = choose|k: int| 0 <= k < head.len() && head[k] == x;
                if k < n - 1 {
                    assert(s.take(n - 1)[k] == x);
                    assert(before.contains(x));
                    let j = choose|j: int| 0 <= j < before.len() && before[j] == x;
                    assert(deduped_to(s, n)[j] == x);
                } else if before.contains(last) {
                    assert(deduped_to(s, n) == before);
                } else {
                    assert(before.push(last)[before.len() as int] == x);
                }
            }
        }
    } else {
        assert forall|x: T| #[trigger]
            deduped_to(s, n).contains(x) <==> s.take(n).contains(x) by {
            assert(s.take(n).len() == 0);
        }
    }
}

/// Keeping first occurrences leaves each item once and loses none.
pub proof fn lemma_deduped<T>(s: Seq<T>)
    ensures
        deduped(s).no_duplicates(),
        forall|x: T| #[trigger] deduped(s).contains(x) <==> s.contains(x),
{
    lemma_deduped_to(s, s.len() as int);
    assert(s.take(s.len() as int) =~= s);
}

/// The texts, each kept only where it first occurs.
pub fn distinct(values: &Vec<String>) -> (r: Vec<String>)
    ensures
        texts(r@) == deduped(texts(values@)),
{
    broadcast use group_views;

    let mut r: Vec<String> = Vec::new();
    let mut i: usize = 0;
    while i < values.len()
        invariant
            i <= values@.len(),
            texts(r@) == deduped_to(texts(values@), i as int),
        decreases values@.len() - i,
    {
        if !lists(&r, values[i].as_str()) {
            r.push(owned(values[i].as_str()));
        }
        i += 1;
    }
    r
}

/// Whether a list holds a number.
pub fn lists_index(v: &Vec<usize>, x: usize) -> (r: bool)
    ensures
        r == v@.contains(x),
{
    let mut i: usize = 0;
    while i < v.len()
        invariant
            i <= v@.len(),
            forall|k: int| 0 <= k < i ==> v@[k] != x,
        decreases v@.len() - i,
    {
        if v[i] == x {
            return true;
        }
        i += 1;
    }
    false
}

/// Whether a list holds a number.
pub fn lists_number(v: &Vec<u32>, x: u32) -> (r: bool)
    ensures
        r == v@.contains(x),
{
    let mut i: usize = 0;
    while i < v.len()
        invariant
            i <= v@.len(),
            forall|k: int| 0 <= k < i ==> v@[k] != x,
        decreases v@.len() - i,
    {
        if v[i] == x {
            return true;
        }
        i += 1;
    }
    false
}

/// The numbers, each kept only where it first occurs.
pub fn distinct_indices(values: &Vec<usize>) -> (r: Vec<usize>)
    ensures
        r@ == deduped(values@),
{
    let mut r: Vec<usize> = Vec::new();
    let mut i: usize = 0;
    while i < values.len()
        invariant
            i <= values@.len(),
            r@ == deduped_to(values@, i as int),
        decreases values@.len() - i,
    {
        if !lists_index(&r, values[i]) {
            r.push(values[i]);
        }
        i += 1;
    }
    r
}

/// The numbers, each kept only where it first occurs.
pub fn distinct_numbers(values: &Vec<u32>) -> (r: Vec<u32>)
    ensures
        r@ == deduped(values@),
{
    let mut r: Vec<u32> = Vec::new();
    let mut i: usize = 0;
    while i < values.len()
        invariant
            i <= values@.len(),
            r@ == deduped_to(values@, i as int),
        decreases values@.len() - i,
    {
        if !lists_number(&r, values[i]) {
            r.push(values[i]);
        }
        i += 1;
    }
    r
}

/// The first `n` numbers without the zeros.
pub open spec fn nonzero_to(s: Seq<u32>, n: int) -> Seq<u32>
    decreases n,
{
    if n <= 0 {
        Seq::empty()
    } else if s[n - 1] > 0 {
        nonzero_to(s, n - 1).push(s[n - 1])
    } else {
        nonzero_to(s, n - 1)
    }
}

/// The numbers without the zeros.
pub open spec fn nonzero(s: Seq<u32>) -> Seq<u32> {
    nonzero_to(s, s.len() as int)
}

/// The numbers without the zeros.
pub fn nonzero_numbers(values: &Vec<u32>) -> (r: Vec<u32>)
    ensures
        r@ == nonzero(values@),
{
    let mut r: Vec<u32> = Vec::new();
    let mut i: usize = 0;
    while i < values.len()
        invariant
            i <= values@.len(),
            r@ == nonzero_to(values@, i as int),
        decreases values@.len() - i,
    {
        if values[i] > 0 {
            r.push(values[i]);
        }
        i += 1;
    }
    r
}

/// The larger of a count and one.
pub open spec fn at_least_one(n: u32) -> u32 {
    if n > 1 {
        n
    } else {
        1
    }
}

/// The larger of a count and one.
pub fn or_one(n: u32) -> (r: u32)
    ensures
        r == at_least_one(n),
{
    if n > 1 {
        n
    } else {
        1
    }
}

/// The numbers without the zeros; where none is left, `fallback`, and at least one.
pub open spec fn steps_or(values: Seq<u32>, fallback: u32) -> Seq<u32> {
    if nonzero(values).len() == 0 {
        seq![at_least_one(fallback)]
    } else {
        nonzero(values)
    }
}

/// The numbers without the zeros; where none is left, `fallback`, and at least one.
pub fn first_or_one(values: &Vec<u32>, fallback: u32) -> (r: Vec<u32>)
    ensures
        r@ == steps_or(values@, fallback),
{
    let picked = nonzero_numbers(values);
    if picked.len() == 0 {
        let mut r: Vec<u32> = Vec::new();
        r.push(or_one(fallback));
        assert(r@ =~= seq![at_least_one(fallback)]);
        r
    } else {
        picked
    }
}

/// The texts of `picked`, cleaned; `fallback` where none is left.
pub open spec fn cleaned_or(picked: Seq<Seq<char>>, fallback: Seq<Seq<char>>) -> Seq<Seq<char>> {
    if cleaned(picked).len() == 0 {
        fallback
    } else {
        cleaned(picked)
    }
}

/// The texts of `picked`, cleaned; `fallback` where none is left.
pub fn non_empty(picked: &Vec<String>, fallback: &Vec<String>) -> (r: Vec<String>)
    ensures
        texts(r@) == cleaned_or(texts(picked@), texts(fallback@)),
{
    let list = cleaned_list(picked);
    assert(texts(list@).len() == list@.len());
    if list.len() == 0 {
        copy_texts(fallback)
    } else {
        list
    }
}

// ---------------------------------------------------------------------------
// UDP loads
// ---------------------------------------------------------------------------

/// The choices along an axis: its values, or none at all.
pub open spec fn choices(axis: Seq<Seq<char>>) -> Seq<Option<Seq<char>>> {
    if axis.len() == 0 {
        seq![None]
    } else {
        Seq::new(axis.len(), |i: int| Some(axis[i]))
    }
}

/// The texts of a list of optional strings.
pub open spec fn opt_list(v: Seq<Option<String>>) -> Seq<Option<Seq<char>>> {
    Seq::new(v.len(), |i: int| opt_text(v[i]))
}

/// The choices along an axis: its values, or none at all.
pub fn choices_of(axis: &Vec<String>) -> (r: Vec<Option<String>>)
    ensures
        opt_list(r@) == choices(texts(axis@)),
        r@.len() > 0,
{
    let mut r: Vec<Option<String>> = Vec::new();
    if axis.len() == 0 {
        r.push(None);
        assert(opt_list(r@) =~= choices(texts(axis@)));
        return r;
    }
    let mut i: usize = 0;
    while i < axis.len()
        invariant
            i <= axis@.len(),
            axis@.len() > 0,
            r@.len() == i,
            forall|k: int| 0 <= k < i ==> opt_text(#[trigger] r@[k]) == Some(axis@[k]@),
        decreases axis@.len() - i,
    {
        r.push(Some(owned(axis[i].as_str())));
        i += 1;
    }
    assert(opt_list(r@) =~= choices(texts(axis@)));
    r
}

/// One bandwidth and one length with each window.
pub open spec fn udp_row(
    bandwidth: Seq<char>,
    length: Option<Seq<char>>,
    windows: Seq<Option<Seq<char>>>,
) -> Seq<UdpProfileView> {
    Seq::new(windows.len(), |i: int| UdpProfileView { bandwidth, length, window: windows[i] })
}

/// One bandwidth with each of the first `n` lengths and each window.
pub open spec fn udp_rows_to(
    bandwidth: Seq<char>,
    lengths: Seq<Option<Seq<char>>>,
    windows: Seq<Option<Seq<char>>>,
    n: int,
) -> Seq<UdpProfileView>
    decreases n,
{
    if n <= 0 {
        Seq::empty()
    } else {
        udp_rows_to(bandwidth, lengths, windows, n - 1) + udp_row(
            bandwidth,
            lengths[n - 1],
            windows,
        )
    }
}

/// One bandwidth with each length and each window; an empty axis adds no argument.
pub open spec fn udp_cross(
    bandwidth: Seq<char>,
    lengths: Seq<Seq<char>>,
    windows: Seq<Seq<char>>,
) -> Seq<UdpProfileView> {
    udp_rows_to(bandwidth, choices(lengths), choices(windows), choices(lengths).len() as int)
}

/// One bandwidth with each length and each window; an empty axis adds no argument.
pub fn udp_profiles_for(bandwidth: &str, lengths: &Vec<String>, windows: &Vec<String>) -> (r: Vec<
    UdpProfile,
>)
    ensures
        views(r@) == udp_cross(bandwidth@, texts(lengths@), texts(windows@)),
{
    broadcast use group_views;

    let ls = choices_of(lengths);
    let ws = choices_of(windows);
    let ghost lv = opt_list(ls@);
    let ghost wv = opt_list(ws@);
    let mut r: Vec<UdpProfile> = Vec::new();
    let mut i: usize = 0;
    while i < ls.len()
        invariant
            i <= ls@.len(),
            lv == opt_list(ls@),
            wv == opt_list(ws@),
            views(r@) == udp_rows_to(bandwidth@, lv, wv, i as int),
        decreases ls@.len() - i,
    {
        let ghost before = views(r@);
        let ghost row = udp_row(bandwidth@, lv[i as int], wv);
        let mut j: usize = 0;
        assert(before + row.take(0) =~= before);
        while j < ws.len()
            invariant
                i < ls@.len(),
                j <= ws@.len(),
                lv == opt_list(ls@),
                wv == opt_list(ws@),
                row == udp_row(bandwidth@, lv[i as int], wv),
                views(r@) == before + row.take(j as int),
            decreases ws@.len() - j,
        {
            let profile = UdpProfile {
                bandwidth: owned(bandwidth),
                length: copy_opt_text(&ls[i]),
                window: copy_opt_text(&ws[j]),
            };
            assert(profile@ == row[j as int]);
            r.push(profile);
            assert((before + row.take(j as int)).push(row[j as int]) =~= before + row.take(j + 1));
            j += 1;
        }
        assert(row.take(j as int) =~= row);
        i += 1;
    }
    r
}

/// The loads for each of the first `n` bandwidths.
pub open spec fn udp_sweep_to(
    bandwidths: Seq<Seq<char>>,
    lengths: Seq<Seq<char>>,
    windows: Seq<Seq<char>>,
    n: int,
) -> Seq<UdpProfileView>
    decreases n,
{
    if n <= 0 {
        Seq::empty()
    } else {
        udp_sweep_to(bandwidths, lengths, windows, n - 1) + udp_cross(
            bandwidths[n - 1],
            lengths,
            windows,
        )
    }
}

/// Each bandwidth with each length and each window.
pub open spec fn udp_sweep(
    bandwidths: Seq<Seq<char>>,
    lengths: Seq<Seq<char>>,
    windows: Seq<Seq<char>>,
) -> Seq<UdpProfileView> {
    udp_sweep_to(bandwidths, lengths, windows, bandwidths.len() as int)
}

/// Each bandwidth with each length and each window.
pub fn udp_profiles_of(
    bandwidths: &Vec<String>,
    lengths: &Vec<String>,
    windows: &Vec<String>,
) -> (r: Vec<UdpProfile>)
    ensures
        views(r@) == udp_sweep(texts(bandwidths@), texts(lengths@), texts(windows@)),
{
    broadcast use group_views;

    let mut r: Vec<UdpProfile> = Vec::new();
    let mut i: usize = 0;
    while i < bandwidths.len()
        invariant
            i <= bandwidths@.len(),
            views(r@) == udp_sweep_to(
                texts(bandwidths@),
                texts(lengths@),
                texts(windows@),
                i as int,
            ),
        decreases bandwidths@.len() - i,
    {
        let mut more = udp_profiles_for(bandwidths[i].as_str(), lengths, windows);
        r.append(&mut more);
        i += 1;
    }
    r
}

/// Whether a list of loads holds the load of a bandwidth, a length and a window.
pub open spec fn has_load(
    loads: Seq<UdpProfileView>,
    bandwidth: Seq<char>,
    length: Option<Seq<char>>,
    window: Option<Seq<char>>,
) -> bool {
    loads.contains(UdpProfileView { bandwidth, length, window })
}

proof fn lemma_udp_rows_len(
    bandwidth: Seq<char>,
    lengths: Seq<Option<Seq<char>>>,
    windows: Seq<Option<Seq<char>>>,
    n: int,
)
    requires
        0 <= n <= lengths.len(),
    ensures
        udp_rows_to(bandwidth, lengths, windows, n).len() == n * windows.len(),
        forall|i: int, j: int|
            0 <= i < n && 0 <= j < windows.len() ==> #[trigger] has_load(
                udp_rows_to(bandwidth, lengths, windows, n),
                bandwidth,
                lengths[i],
                windows[j],
            ),
    decreases n,
{
    if n > 0 {
        lemma_udp_rows_len(bandwidth, lengths, windows, n - 1);
        let before = udp_rows_to(bandwidth, lengths, windows, n - 1);
        let row = udp_row(bandwidth, lengths[n - 1], windows);
        assert(n * windows.len() == (n - 1) * windows.len() + windows.len()) by (nonlinear_arith);
        assert forall|i: int, j: int| 0 <= i < n && 0 <= j < windows.len() implies #[trigger] has_load(
            udp_rows_to(bandwidth, lengths, windows, n),
            bandwidth,
            lengths[i],
            windows[j],
        ) by {
            let load = UdpProfileView { bandwidth, length: lengths[i], window: windows[j] };
            if i < n - 1 {
                assert(has_load(before, bandwidth, lengths[i], windows[j]));
                let k = choose|k: int| 0 <= k < before.len() && before[k] == load;
                assert((before + row)[k] == load);
            } else {
                assert(row[j] == load);
                assert((before + row)[before.len() + j] == load);
            }
        }
    }
}

/// The loads for one bandwidth are all combinations of length and window, each axis counting one
/// choice where it is empty.
pub proof fn lemma_udp_cross_is_complete(
    bandwidth: Seq<char>,
    lengths: Seq<Seq<char>>,
    windows: Seq<Seq<char>>,
)
    ensures
        udp_cross(bandwidth, lengths, windows).len() == choices(lengths).len() * choices(
            windows,
        ).len(),
        forall|i: int, j: int|
            0 <= i < choices(lengths).len() && 0 <= j < choices(windows).len()
                ==> #[trigger] has_load(
                udp_cross(bandwidth, lengths, windows),
                bandwidth,
                choices(lengths)[i],
                choices(windows)[j],
            ),
{
    lemma_udp_rows_len(
        bandwidth,
        choices(lengths),
        choices(windows),
        choices(lengths).len() as int,
    );
}

/// One more item of a list.
pub(crate) proof fn lemma_take_one_more<T>(s: Seq<T>, n: int)
    requires
        0 < n <= s.len(),
    ensures
        s.take(n) == s.take(n - 1).push(s[n - 1]),
        forall|x: T| #[trigger]
            s.take(n).contains(x) <==> s.take(n - 1).contains(x) || x == s[n - 1],
{
    let before = s.take(n - 1);
    let after = s.take(n);
    assert(after =~= before.push(s[n - 1]));
    assert forall|x: T| #[trigger] after.contains(x) <==> before.contains(x) || x == s[n - 1] by {
        if before.contains(x) {
            let i = choose|i: int| 0 <= i < before.len() && before[i] == x;
            assert(after[i] == x);
        }
        if x == s[n - 1] {
            assert(after[n - 1] == x);
        }
        if after.contains(x) {
            let i = choose|i: int| 0 <= i < after.len() && after[i] == x;
            if i < n - 1 {
                assert(before[i] == x);
            }
        }
    }
}

/// Whether a load is one of the combinations of three axes.
pub open spec fn in_sweep(
    bandwidths: Seq<Seq<char>>,
    lengths: Seq<Seq<char>>,
    windows: Seq<Seq<char>>,
    load: UdpProfileView,
) -> bool {
    bandwidths.contains(load.bandwidth) && choices(lengths).contains(load.length) && choices(
        windows,
    ).contains(load.window)
}

proof fn lemma_row_loads(
    bandwidth: Seq<char>,
    lengths: Seq<Option<Seq<char>>>,
    windows: Seq<Option<Seq<char>>>,
    n: int,
    load: UdpProfileView,
)
    requires
        0 <= n <= lengths.len(),
    ensures
        udp_rows_to(bandwidth, lengths, windows, n).contains(load) <==> load.bandwidth == bandwidth
            && lengths.take(n).contains(load.length) && windows.contains(load.window),
    decreases n,
{
    if n > 0 {
        lemma_row_loads(bandwidth, lengths, windows, n - 1, load);
        lemma_take_one_more(lengths, n);
        let before = udp_rows_to(bandwidth, lengths, windows, n - 1);
        let more = udp_row(bandwidth, lengths[n - 1], windows);
        let all = udp_rows_to(bandwidth, lengths, windows, n);
        assert(all == before + more);
        if all.contains(load) {
            let k = choose|k: int| 0 <= k < all.len() && all[k] == load;
            if k < before.len() {
                assert(before[k] == load);
            } else {
                assert(more[k - before.len()] == load);
                assert(windows[k - before.len()] == load.window);
            }
        }
        if before.contains(load) {
            let k = choose|k: int| 0 <= k < before.len() && before[k] == load;
            assert(all[k] == load);
        }
        if load.bandwidth == bandwidth && load.length == lengths[n - 1] && windows.contains(
            load.window,
        ) {
            let k = choose|k: int| 0 <= k < windows.len() && windows[k] == load.window;
            assert(more[k] == load);
            assert(all[before.len() + k] == load);
        }
    } else {
        assert(lengths.take(0) =~= Seq::<Option<Seq<char>>>::empty());
    }
}

proof fn lemma_sweep_loads(
    bandwidths: Seq<Seq<char>>,
    lengths: Seq<Seq<char>>,
    windows: Seq<Seq<char>>,
    n: int,
    load: UdpProfileView,
)
    requires
        0 <= n <= bandwidths.len(),
    ensures
        udp_sweep_to(bandwidths, lengths, windows, n).contains(load) <==> in_sweep(
            bandwidths.take(n),
            lengths,
            windows,
            load,
        ),
    decreases n,
{
    if n > 0 {
        lemma_sweep_loads(bandwidths, lengths, windows, n - 1, load);
        lemma_take_one_more(bandwidths, n);
        let ls = choices(lengths);
        lemma_row_loads(bandwidths[n - 1], ls, choices(windows), ls.len() as int, load);
        assert(ls.take(ls.len() as int) =~= ls);
        let before = udp_sweep_to(bandwidths, lengths, windows, n - 1);
        let more = udp_cross(bandwidths[n - 1], lengths, windows);
        let all = udp_sweep_to(bandwidths, lengths, windows, n);
        assert(all == before + more);
        if all.contains(load) {
            let k = choose|k: int| 0 <= k < all.len() && all[k] == load;
            if k < before.len() {
                assert(before[k] == load);
            } else {
                assert(more[k - before.len()] == load);
            }
        }
        if before.contains(load) {
            let k = choose|k: int| 0 <= k < before.len() && before[k] == load;
            assert(all[k] == load);
        }
        if more.contains(load) {
            let k = choose|k: int| 0 <= k < more.len() && more[k] == load;
            assert(all[before.len() + k] == load);
        }
    } else {
        assert(bandwidths.take(0) =~= Seq::<Seq<char>>::empty());
    }
}

/// A sweep holds exactly the combinations of its axes.
pub proof fn lemma_sweep_is_complete(
    bandwidths: Seq<Seq<char>>,
    lengths: Seq<Seq<char>>,
    windows: Seq<Seq<char>>,
    load: UdpProfileView,
)
    ensures
        udp_sweep(bandwidths, lengths, windows).contains(load) <==> in_sweep(
            bandwidths,
            lengths,
            windows,
            load,
        ),
{
    lemma_sweep_loads(bandwidths, lengths, windows, bandwidths.len() as int, load);
    assert(bandwidths.take(bandwidths.len() as int) =~= bandwidths);
}

} // verus!

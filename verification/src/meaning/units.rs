//! What the lines about a unit say of it.
use vstd::prelude::*;
use vstd::string::*;
use crate::meaning::number::{lemma_numbers_round_to_doubles, lemma_rounding_is_to_the_nearest};
use crate::number::half_even;
use crate::text::{all_digits, decimal, digit, joined, read_unsigned, texts};
use crate::units::{
    direction_mark, leg_direction, load_line, load_lines_to, mbps_text, scaled, shown_from,
    target_lines, Leg, LegKind, QUOTIENT_FLOOR, Unit,
};

verus! {

proof fn lemma_scaled(x: nat, p: nat) -> (k: nat)
    requires
        x > 0,
        p > 0,
    ensures
        k > 0,
        scaled(x, p) == (x * k, p * k),
        x * k >= QUOTIENT_FLOOR,
    decreases
            (if x >= QUOTIENT_FLOOR {
                0
            } else {
                QUOTIENT_FLOOR - x
            }),
{
    if x >= QUOTIENT_FLOOR {
        assert(x * 1 == x && p * 1 == p);
        1
    } else {
        let j = lemma_scaled(2 * x, 2 * p);
        assert((2 * x) * j == x * (2 * j)) by (nonlinear_arith);
        assert((2 * p) * j == p * (2 * j)) by (nonlinear_arith);
        2 * j
    }
}

/// A whole number of Mbps is shown as that number.
pub proof fn lemma_whole_rates_are_shown_whole(mbps: nat)
    requires
        mbps < 9_000_000_000,
    ensures
        mbps_text((mbps * 1_000_000) as u64) == decimal(mbps),
{
    let bits = (mbps * 1_000_000) as u64;
    let n = bits as nat;
    lemma_numbers_round_to_doubles(n);
    if mbps == 0 {
        assert(scaled(0, 1) == (0nat, 1nat));
        assert(half_even(0, 1_000_000) == 0);
    } else {
        let p = lemma_scaled(n, 1);
        assert(1 * p == p);
        let x = n * p;
        let m = mbps * p;
        assert(x == 1_000_000 * m) by (nonlinear_arith)
            requires
                x == n * p,
                n == mbps * 1_000_000,
                m == mbps * p,
        ;
        assert(half_even(x, 1_000_000) == m);
        vstd::arithmetic::div_mod::lemma_mod_multiples_basic(mbps as int, p as int);
        vstd::arithmetic::div_mod::lemma_div_multiples_vanish(mbps as int, p as int);
        assert(m == p * mbps) by (nonlinear_arith)
            requires
                m == mbps * p,
        ;
        assert(m % p == 0);
        assert(m / p == mbps);
    }
}

/// Whether a text shows a number of tenths of a Mbps that is near a number of bits per second.
pub open spec fn shows_tenths(text: Seq<char>, bits: u64, tenths: nat) -> bool {
    &&& text == decimal(tenths / 10) + "."@ + decimal(tenths % 10) || (tenths % 10 == 0 && text
        == decimal(tenths / 10))
    &&& -1_000_010 <= 2 * (tenths * 1_000_000 - 10 * bits) <= 1_000_010
}

/// A rate that is not shown whole is shown with one digit after the point, and no rate is shown more
/// than a twentieth of a Mbps, and what rounding the quotient to 53 bits costs, away from itself.
pub proof fn lemma_rates_are_shown_to_a_tenth(bits: u64)
    requires
        0 < bits < 1_000_000_000_000_000,
    ensures
        exists|tenths: nat| #[trigger] shows_tenths(mbps_text(bits), bits, tenths),
{
    let n = bits as nat;
    lemma_numbers_round_to_doubles(n);
    let p = lemma_scaled(n, 1);
    assert(1 * p == p);
    let x = n * p;
    let m = half_even(x, 1_000_000);
    lemma_rounding_is_to_the_nearest(x, 1_000_000);
    assert(p >= 1_000_000) by (nonlinear_arith)
        requires
            n * p >= 4_503_599_627_370_496_000_000,
            n < 1_000_000_000_000_000,
    ;
    assert(-1_000_000 <= 2 * (m * 1_000_000 - x) <= 1_000_000);
    if m % p == 0 {
        let w = m / p;
        vstd::arithmetic::div_mod::lemma_fundamental_div_mod(m as int, p as int);
        let tenths = w * 10;
        assert(tenths / 10 == w);
        lemma_bound_of_whole(n as int, p as int, m as int, w as int);
        assert(shows_tenths(mbps_text(bits), bits, tenths));
    } else {
        let tenths = half_even(m * 10, p);
        lemma_rounding_is_to_the_nearest(m * 10, p);
        lemma_bound_of_tenths(n as int, p as int, m as int, tenths as int);
        assert(shows_tenths(mbps_text(bits), bits, tenths));
    }
}

proof fn lemma_bound_of_whole(n: int, p: int, m: int, w: int)
    requires
        p >= 1_000_000,
        m == p * w,
        -1_000_000 <= 2 * (m * 1_000_000 - n * p) <= 1_000_000,
    ensures
        -1 <= w * 1_000_000 - n <= 1,
{
    let d = w * 1_000_000 - n;
    assert(m * 1_000_000 - n * p == p * d) by (nonlinear_arith)
        requires
            m == p * w,
            d == w * 1_000_000 - n,
    ;
    if d > 1 {
        assert(p * d >= 2 * p) by (nonlinear_arith)
            requires
                d >= 2,
                p >= 1,
        ;
    }
    if d < -1 {
        assert(p * d <= -2 * p) by (nonlinear_arith)
            requires
                d <= -2,
                p >= 1,
        ;
    }
}

proof fn lemma_bound_of_tenths(n: int, p: int, m: int, t: int)
    requires
        p >= 1_000_000,
        -1_000_000 <= 2 * (m * 1_000_000 - n * p) <= 1_000_000,
        -p <= 2 * (t * p - m * 10) <= p,
    ensures
        -1_000_010 <= 2 * (t * 1_000_000 - 10 * n) <= 1_000_010,
{
    let e = 2 * (t * 1_000_000 - 10 * n);
    assert(p * e == 1_000_000 * (2 * (t * p - m * 10)) + 10 * (2 * (m * 1_000_000 - n * p)))
        by (nonlinear_arith)
        requires
            e == 2 * (t * 1_000_000 - 10 * n),
    ;
    assert(p * e <= 1_000_000 * p + 10_000_000);
    assert(p * e >= -1_000_000 * p - 10_000_000);
    assert(e <= 1_000_010) by (nonlinear_arith)
        requires
            p >= 1_000_000,
            p * e <= 1_000_000 * p + 10_000_000,
    ;
    assert(e >= -1_000_010) by (nonlinear_arith)
        requires
            p >= 1_000_000,
            p * e >= -1_000_000 * p - 10_000_000,
    ;
}

/// Whether an argument is the number of bits per second that a `-b` before it asks for.
pub open spec fn is_bandwidth(args: Seq<Seq<char>>, i: int) -> bool {
    i > 0 && args[i - 1] == "-b"@ && read_unsigned(args[i], u64::MAX as nat) is Some
}

proof fn lemma_shown_from(args: Seq<Seq<char>>, i: int)
    requires
        0 <= i <= args.len(),
    ensures
        shown_from(args, i).len() == args.len() - i,
        forall|j: int|
            #![trigger shown_from(args, i)[j]]
            0 <= j < args.len() - i ==> shown_from(args, i)[j] == if j > 0 && is_bandwidth(
                args,
                i + j,
            ) {
                mbps_text(read_unsigned(args[i + j], u64::MAX as nat)->0 as u64) + " Mbps"@
            } else {
                args[i + j]
            },
    decreases args.len() - i,
{
    reveal_strlit("-b");
    if i < args.len() {
        let all = shown_from(args, i);
        if args[i] == "-b"@ && i + 1 < args.len() && read_unsigned(args[i + 1], u64::MAX as nat)
            is Some {
            lemma_shown_from(args, i + 2);
            assert(args[i + 1] != "-b"@) by {
                if args[i + 1] == "-b"@ {
                    assert("-b"@[0] == '-');
                    assert(all_digits("-b"@));
                    assert(digit("-b"@[0]));
                }
            }
            let rest = shown_from(args, i + 2);
            assert forall|j: int|
                #![trigger all[j]]
                0 <= j < args.len() - i implies all[j] == if j > 0 && is_bandwidth(args, i + j) {
                mbps_text(read_unsigned(args[i + j], u64::MAX as nat)->0 as u64) + " Mbps"@
            } else {
                args[i + j]
            } by {
                if j >= 2 {
                    assert(all[j] == rest[j - 2]);
                    assert((i + 2) + (j - 2) == i + j);
                }
            }
        } else {
            lemma_shown_from(args, i + 1);
            let rest = shown_from(args, i + 1);
            assert forall|j: int|
                #![trigger all[j]]
                0 <= j < args.len() - i implies all[j] == if j > 0 && is_bandwidth(args, i + j) {
                mbps_text(read_unsigned(args[i + j], u64::MAX as nat)->0 as u64) + " Mbps"@
            } else {
                args[i + j]
            } by {
                if j >= 1 {
                    assert(all[j] == rest[j - 1]);
                    assert((i + 1) + (j - 1) == i + j);
                }
            }
        }
    }
}

/// Arguments are shown one for one and as they are, but for the number after a `-b`, which is shown
/// in Mbps.
pub proof fn lemma_arguments_are_shown(args: Seq<Seq<char>>, i: int)
    requires
        0 <= i < args.len(),
    ensures
        shown_from(args, 0).len() == args.len(),
        is_bandwidth(args, i) ==> shown_from(args, 0)[i] == mbps_text(
            read_unsigned(args[i], u64::MAX as nat)->0 as u64,
        ) + " Mbps"@,
        !is_bandwidth(args, i) ==> shown_from(args, 0)[i] == args[i],
{
    lemma_shown_from(args, 0);
    assert(0 + i == i);
    let shown = shown_from(args, 0)[i];
}

/// The line of a leg shows its direction, or that of the unit where it has none, then its arguments
/// and, for several UDP streams, how many.
pub proof fn lemma_line_shows_the_load(unit: Unit, leg: Leg, i: int)
    ensures
        leg.kind matches LegKind::IperfSingle(task) ==> load_line(unit, leg) == Some(
            direction_mark(leg_direction(unit, leg)) + joined(
                shown_from(texts(task.extra@), 0),
                " "@,
            ),
        ),
        leg.kind matches LegKind::IperfGroup(streams) ==> {
            &&& streams@.len() == 0 ==> load_line(unit, leg) is None
            &&& streams@.len() > 0 ==> {
                let line = direction_mark(leg_direction(unit, leg)) + joined(
                    shown_from(texts(streams@[0].extra@), 0),
                    " "@,
                );
                load_line(unit, leg) == Some(
                    if streams@.len() > 1 && streams@[0].udp {
                        line + " ×"@ + decimal(streams@.len()) + " 流"@
                    } else {
                        line
                    },
                )
            }
        },
        leg.kind is Ping || leg.kind is CtsTraffic ==> load_line(unit, leg) is None,
        leg.tag@.len() > 0 ==> leg_direction(unit, leg) == leg.tag@,
        leg.tag@.len() == 0 ==> leg_direction(unit, leg) == unit.direction@,
{
}

/// Directions are marked by arrows between the ends; both ways have a word; others stand as they
/// are.
pub proof fn lemma_directions_are_marked(dir: Seq<char>)
    ensures
        direction_mark("ab"@) == "A→B "@,
        direction_mark("ba"@) == "B→A "@,
        direction_mark("bidir"@) == "双向 "@,
        direction_mark(Seq::<char>::empty()).len() == 0,
        dir != "ab"@ && dir != "ba"@ && dir != "bidir"@ && dir.len() > 0 ==> direction_mark(dir)
            == dir + " "@,
{
    reveal_strlit("ab");
    reveal_strlit("ba");
    reveal_strlit("bidir");
    assert("ab"@[0] != "ba"@[0]);
    assert("ab"@.len() == 2 && "ba"@.len() == 2 && "bidir"@.len() == 5);
    let none = Seq::<char>::empty();
    assert(none.len() == 0);
}

/// Every leg that has a line shows it, once, after those of the legs before it.
pub proof fn lemma_legs_show_their_lines(unit: Unit, n: int)
    requires
        0 < n <= unit.legs@.len(),
    ensures
        load_line(unit, unit.legs@[n - 1]) matches Some(line) ==> load_lines_to(unit, n)
            == load_lines_to(unit, n - 1).push(line),
        load_line(unit, unit.legs@[n - 1]) is None ==> load_lines_to(unit, n) == load_lines_to(
            unit,
            n - 1,
        ),
        load_lines_to(unit, 0).len() == 0,
{
}

/// The thresholds of a unit are shown as they are given, and the one on both directions last.
pub proof fn lemma_thresholds_are_shown(unit: Unit)
    ensures
        forall|i: int|
            0 <= i < unit.target_lines@.len() ==> #[trigger] target_lines(unit)[i]
                == unit.target_lines@[i]@,
        unit.bidir_total_target is None ==> target_lines(unit).len() == unit.target_lines@.len(),
        unit.bidir_total_target matches Some(total) ==> target_lines(unit).len()
            == unit.target_lines@.len() + 1 && target_lines(unit).last()
            == "双向判定：AB 接收端 RX + BA 接收端 RX ≥ "@ + total@ + "Mbps"@,
{
}

} // verus!

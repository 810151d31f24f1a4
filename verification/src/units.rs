//! The units that a plan runs, and how a preview shows them.
use vstd::prelude::*;
use vstd::string::*;
use crate::number::{divide_half_even, half_even, nearest_double, round_to_double};
use crate::readings::Endpoint;
use crate::text::{
    cat2, cat3, copy_texts, decimal, decimal_text, decimal_text_wide, group_views, join, joined,
    opt_view, owned, parse_unsigned, read_unsigned, same, texts,
};

verus! {

/// One load generator run.
#[derive(Clone, Debug)]
pub struct IperfTask {
    pub src: Endpoint,
    pub dst: Endpoint,
    pub udp: bool,
    /// The arguments that are passed on.
    pub extra: Vec<String>,
}

/// One run of the other load generator.
#[derive(Clone, Debug)]
pub struct CtsTask {
    pub src: Endpoint,
    pub dst: Endpoint,
    pub udp: bool,
}

/// One ping run.
#[derive(Clone, Debug)]
pub struct PingTask {
    pub src: Endpoint,
    pub dst: Endpoint,
}

/// What a leg runs.
#[derive(Clone, Debug)]
pub enum LegKind {
    IperfSingle(IperfTask),
    /// Parallel streams.
    IperfGroup(Vec<IperfTask>),
    CtsTraffic(CtsTask),
    Ping(PingTask),
}

/// One direction of a unit.
#[derive(Clone, Debug)]
pub struct Leg {
    /// The direction, where it is not that of the unit.
    pub tag: String,
    pub kind: LegKind,
}

/// One unit of a run.
#[derive(Clone, Debug)]
pub struct Unit {
    pub id: String,
    pub title: String,
    pub est_secs: u64,
    pub direction: String,
    /// Whether both directions run at once.
    pub bidir: bool,
    pub legs: Vec<Leg>,
    /// The thresholds of the legs and where they come from.
    pub target_lines: Vec<String>,
    /// The threshold on the sum of both directions, in whole Mbps.
    pub bidir_total_target: Option<String>,
}

// ---------------------------------------------------------------------------
// Bandwidths in Mbps
// ---------------------------------------------------------------------------

/// The least product below which a quotient by a million has fewer than 53 bits.
pub const QUOTIENT_FLOOR: u128 = 4_503_599_627_370_496_000_000;

/// A number and a power of two by which both are scaled until the quotient by a million has 53
/// bits.
pub open spec fn scaled(x: nat, p: nat) -> (nat, nat)
    decreases
            (if x >= QUOTIENT_FLOOR {
                0
            } else {
                QUOTIENT_FLOOR - x
            }),
{
    if x == 0 || x >= QUOTIENT_FLOOR {
        (x, p)
    } else {
        scaled(2 * x, 2 * p)
    }
}

/// A bandwidth in bits per second as a number of Mbps: the nearest double of the quotient, whole or
/// with one decimal.
pub open spec fn mbps_text(bits: u64) -> Seq<char> {
    let (x, p) = scaled(nearest_double(bits as nat), 1);
    let m = half_even(x, 1_000_000);
    if m % p == 0 {
        decimal(m / p)
    } else {
        let tenths = half_even(m * 10, p);
        decimal(tenths / 10) + "."@ + decimal(tenths % 10)
    }
}

/// A number and a power of two, scaled until the quotient by a million has 53 bits.
pub fn scale_up(n: u128) -> (r: (u128, u128))
    requires
        n <= 0x1_0000_0000_0001_0000,
    ensures
        (r.0 as nat, r.1 as nat) == scaled(n as nat, 1),
        1 <= r.1 < 2 * QUOTIENT_FLOOR,
        r.0 < 2 * QUOTIENT_FLOOR,
{
    let mut x: u128 = n;
    let mut p: u128 = 1;
    while x != 0 && x < QUOTIENT_FLOOR
        invariant
            x < 2 * QUOTIENT_FLOOR,
            1 <= p < 2 * QUOTIENT_FLOOR,
            x == 0 ==> p == 1,
            x > 0 ==> p <= x,
            scaled(n as nat, 1) == scaled(x as nat, p as nat),
        decreases
                (if x >= QUOTIENT_FLOOR {
                    0
                } else {
                    QUOTIENT_FLOOR - x
                }),
    {
        x = 2 * x;
        p = 2 * p;
    }
    (x, p)
}

/// A bandwidth in bits per second as a number of Mbps.
pub fn mbps_of_bits(bits: u64) -> (r: String)
    ensures
        r@ == mbps_text(bits),
{
    let (x, p) = scale_up(round_to_double(bits));
    let m: u128 = divide_half_even(x, 1_000_000);
    assert(m <= x / 1_000_000 + 1);
    if m % p == 0 {
        decimal_text_wide(m / p)
    } else {
        let tenths: u128 = divide_half_even(m * 10, p);
        let whole = decimal_text_wide(tenths / 10);
        let rest = decimal_text_wide(tenths % 10);
        cat3(whole.as_str(), ".", rest.as_str())
    }
}

// ---------------------------------------------------------------------------
// Arguments as a preview shows them
// ---------------------------------------------------------------------------

/// The arguments from index `i` on, with bandwidths in Mbps.
pub open spec fn shown_from(args: Seq<Seq<char>>, i: int) -> Seq<Seq<char>>
    decreases args.len() - i,
{
    if i < 0 || i >= args.len() {
        Seq::empty()
    } else if args[i] == "-b"@ && i + 1 < args.len() && read_unsigned(
        args[i + 1],
        u64::MAX as nat,
    ) is Some {
        let bits = read_unsigned(args[i + 1], u64::MAX as nat)->0;
        seq![args[i], mbps_text(bits as u64) + " Mbps"@] + shown_from(args, i + 2)
    } else {
        seq![args[i]] + shown_from(args, i + 1)
    }
}

/// Arguments as a preview shows them: bandwidths in Mbps, all else as it is.
pub fn readable_args(extra: &Vec<String>) -> (r: String)
    ensures
        r@ == joined(shown_from(texts(extra@), 0), " "@),
{
    broadcast use group_views;

    let ghost args = texts(extra@);
    let mut out: Vec<String> = Vec::new();
    let mut i: usize = 0;
    assert(texts(out@) + shown_from(args, 0) =~= shown_from(args, 0));
    while i < extra.len()
        invariant
            i <= extra@.len(),
            args == texts(extra@),
            shown_from(args, 0) == texts(out@) + shown_from(args, i as int),
        decreases extra@.len() - i,
    {
        let ghost before = texts(out@);
        assert(args[i as int] == extra@[i as int]@);
        let arg = extra[i].as_str();
        out.push(owned(arg));
        let mut bits: Option<u64> = None;
        if same(arg, "-b") && i + 1 < extra.len() {
            assert(args[i + 1] == extra@[i + 1]@);
            bits = parse_unsigned(extra[i + 1].as_str(), u64::MAX);
        }
        match bits {
            Some(value) => {
                let number = mbps_of_bits(value);
                out.push(cat2(number.as_str(), " Mbps"));
                assert(before + (seq![arg@, mbps_text(value) + " Mbps"@] + shown_from(args, i + 2))
                    =~= texts(out@) + shown_from(args, i + 2));
                i += 2;
            },
            None => {
                assert(before + (seq![arg@] + shown_from(args, i + 1)) =~= texts(out@)
                    + shown_from(args, i + 1));
                i += 1;
            },
        }
    }
    assert(texts(out@) + Seq::<Seq<char>>::empty() =~= texts(out@));
    join(&out, " ")
}

/// The task that stands for a leg in a preview, and its number of streams.
pub open spec fn leg_task(leg: Leg) -> Option<(IperfTask, nat)> {
    match leg.kind {
        LegKind::IperfSingle(task) => Some((task, 1)),
        LegKind::IperfGroup(streams) => if streams@.len() > 0 {
            Some((streams@[0], streams@.len()))
        } else {
            None
        },
        _ => None,
    }
}

/// How a preview shows a direction.
pub open spec fn direction_mark(dir: Seq<char>) -> Seq<char> {
    if dir == "ab"@ {
        "A→B "@
    } else if dir == "ba"@ {
        "B→A "@
    } else if dir == "bidir"@ {
        "双向 "@
    } else if dir.len() == 0 {
        Seq::empty()
    } else {
        dir + " "@
    }
}

/// How a preview shows a direction.
pub fn mark_of_direction(dir: &str) -> (r: String)
    ensures
        r@ == direction_mark(dir@),
{
    if same(dir, "ab") {
        owned("A→B ")
    } else if same(dir, "ba") {
        owned("B→A ")
    } else if same(dir, "bidir") {
        owned("双向 ")
    } else if dir.is_empty() {
        String::new()
    } else {
        cat2(dir, " ")
    }
}

/// The direction of a leg: its own, or that of its unit.
pub open spec fn leg_direction(unit: Unit, leg: Leg) -> Seq<char> {
    if leg.tag@.len() == 0 {
        unit.direction@
    } else {
        leg.tag@
    }
}

/// The line of a preview for one leg; none where the leg passes no arguments on.
pub open spec fn load_line(unit: Unit, leg: Leg) -> Option<Seq<char>> {
    match leg_task(leg) {
        None => None,
        Some((task, streams)) => {
            let text = direction_mark(leg_direction(unit, leg)) + joined(
                shown_from(texts(task.extra@), 0),
                " "@,
            );
            Some(
                if task.udp && streams > 1 {
                    text + " ×"@ + decimal(streams) + " 流"@
                } else {
                    text
                },
            )
        },
    }
}

/// The line of a preview for one leg.
pub fn load_line_of(unit: &Unit, leg: &Leg) -> (r: Option<String>)
    ensures
        opt_view(r) == load_line(*unit, *leg),
{
    let (task, streams): (&IperfTask, usize) = match &leg.kind {
        LegKind::IperfSingle(task) => (task, 1),
        LegKind::IperfGroup(group) => {
            if group.len() == 0 {
                return None;
            }
            (&group[0], group.len())
        },
        _ => {
            return None;
        },
    };
    let direction = if leg.tag.as_str().is_empty() {
        unit.direction.as_str()
    } else {
        leg.tag.as_str()
    };
    let mark = mark_of_direction(direction);
    let args = readable_args(&task.extra);
    let mut text = cat2(mark.as_str(), args.as_str());
    if task.udp && streams > 1 {
        let number = decimal_text(streams as u64);
        text.append(" ×");
        text.append(number.as_str());
        text.append(" 流");
    }
    Some(text)
}

/// The lines of a preview for the first `n` legs of a unit.
pub open spec fn load_lines_to(unit: Unit, n: int) -> Seq<Seq<char>>
    decreases n,
{
    if n <= 0 {
        Seq::empty()
    } else {
        match load_line(unit, unit.legs@[n - 1]) {
            Some(line) => load_lines_to(unit, n - 1).push(line),
            None => load_lines_to(unit, n - 1),
        }
    }
}

/// The lines of a preview for the legs of a unit: what each is finally run with.
pub fn unit_load_lines(unit: &Unit) -> (r: Vec<String>)
    ensures
        texts(r@) == load_lines_to(*unit, unit.legs@.len() as int),
{
    broadcast use group_views;

    let mut r: Vec<String> = Vec::new();
    let mut i: usize = 0;
    while i < unit.legs.len()
        invariant
            i <= unit.legs@.len(),
            texts(r@) == load_lines_to(*unit, i as int),
        decreases unit.legs@.len() - i,
    {
        if let Some(line) = load_line_of(unit, &unit.legs[i]) {
            r.push(line);
        }
        i += 1;
    }
    r
}

/// The thresholds of a unit as a preview shows them.
pub open spec fn target_lines(unit: Unit) -> Seq<Seq<char>> {
    match unit.bidir_total_target {
        Some(total) => texts(unit.target_lines@).push(
            "双向判定：AB 接收端 RX + BA 接收端 RX ≥ "@ + total@ + "Mbps"@,
        ),
        None => texts(unit.target_lines@),
    }
}

/// The thresholds of a unit as a preview shows them.
pub fn unit_target_lines(unit: &Unit) -> (r: Vec<String>)
    ensures
        texts(r@) == target_lines(*unit),
{
    broadcast use group_views;

    let mut lines = copy_texts(&unit.target_lines);
    if let Some(total) = &unit.bidir_total_target {
        lines.push(cat3("双向判定：AB 接收端 RX + BA 接收端 RX ≥ ", total.as_str(), "Mbps"));
    }
    lines
}

// ---------------------------------------------------------------------------
// What a unit is about
// ---------------------------------------------------------------------------

/// The protocol of a leg.
pub open spec fn leg_protocol(leg: Leg) -> Seq<char> {
    let udp = match leg.kind {
        LegKind::IperfSingle(task) => task.udp,
        LegKind::IperfGroup(streams) => streams@.len() > 0 && streams@[0].udp,
        LegKind::CtsTraffic(task) => task.udp,
        LegKind::Ping(_) => false,
    };
    if leg.kind is Ping {
        "ping"@
    } else if udp {
        "udp"@
    } else {
        "tcp"@
    }
}

/// The protocol of a unit: that of its first leg.
pub fn unit_protocol(unit: &Unit) -> (r: Option<String>)
    ensures
        opt_view(r) == if unit.legs@.len() == 0 {
            None
        } else {
            Some(leg_protocol(unit.legs@[0]))
        },
{
    if unit.legs.len() == 0 {
        return None;
    }
    let udp = match &unit.legs[0].kind {
        LegKind::IperfSingle(task) => task.udp,
        LegKind::IperfGroup(streams) => streams.len() > 0 && streams[0].udp,
        LegKind::CtsTraffic(task) => task.udp,
        LegKind::Ping(_) => {
            return Some(owned("ping"));
        },
    };
    if udp {
        Some(owned("udp"))
    } else {
        Some(owned("tcp"))
    }
}

/// The arguments that the first `n` legs of a unit pass on.
pub open spec fn effective_args_to(unit: Unit, n: int) -> Seq<Seq<char>>
    decreases n,
{
    if n <= 0 {
        Seq::empty()
    } else {
        match leg_task(unit.legs@[n - 1]) {
            Some((task, _)) => effective_args_to(unit, n - 1) + texts(task.extra@),
            None => effective_args_to(unit, n - 1),
        }
    }
}

/// The arguments that the legs of a unit pass on.
pub fn unit_effective_args(unit: &Unit) -> (r: Vec<String>)
    ensures
        texts(r@) == effective_args_to(*unit, unit.legs@.len() as int),
{
    broadcast use group_views;

    let mut r: Vec<String> = Vec::new();
    let mut i: usize = 0;
    while i < unit.legs.len()
        invariant
            i <= unit.legs@.len(),
            texts(r@) == effective_args_to(*unit, i as int),
        decreases unit.legs@.len() - i,
    {
        match &unit.legs[i].kind {
            LegKind::IperfSingle(task) => {
                let mut more = copy_texts(&task.extra);
                r.append(&mut more);
            },
            LegKind::IperfGroup(streams) => {
                if streams.len() > 0 {
                    let mut more = copy_texts(&streams[0].extra);
                    r.append(&mut more);
                }
            },
            _ => {},
        }
        i += 1;
    }
    r
}

/// The ends of a leg.
pub open spec fn leg_ends(leg: Leg) -> Option<(Endpoint, Endpoint)> {
    match leg.kind {
        LegKind::IperfSingle(task) => Some((task.src, task.dst)),
        LegKind::IperfGroup(streams) => if streams@.len() > 0 {
            Some((streams@[0].src, streams@[0].dst))
        } else {
            None
        },
        LegKind::CtsTraffic(task) => Some((task.src, task.dst)),
        LegKind::Ping(task) => Some((task.src, task.dst)),
    }
}

/// The ends of a leg.
pub fn leg_endpoints(leg: &Leg) -> (r: Option<(&Endpoint, &Endpoint)>)
    ensures
        match r {
            Some(found) => leg_ends(*leg) == Some((*found.0, *found.1)),
            None => leg_ends(*leg) is None,
        },
{
    match &leg.kind {
        LegKind::IperfSingle(task) => Some((&task.src, &task.dst)),
        LegKind::IperfGroup(streams) => if streams.len() > 0 {
            Some((&streams[0].src, &streams[0].dst))
        } else {
            None
        },
        LegKind::CtsTraffic(task) => Some((&task.src, &task.dst)),
        LegKind::Ping(task) => Some((&task.src, &task.dst)),
    }
}

/// The direction of a unit as seen from the ends of the test it comes from.
pub open spec fn unit_direction(unit: Unit, src: Endpoint, dst: Endpoint) -> Option<Seq<char>> {
    if unit.bidir {
        Some("bidir"@)
    } else if unit.legs@.len() == 0 {
        None
    } else {
        match leg_ends(unit.legs@[0]) {
            None => None,
            Some((a, b)) => if a.key_text() == src.key_text() && b.key_text() == dst.key_text() {
                Some("ab"@)
            } else if a.key_text() == dst.key_text() && b.key_text() == src.key_text() {
                Some("ba"@)
            } else {
                None
            },
        }
    }
}

/// The direction of a unit as seen from the ends of the test it comes from.
pub fn unit_direction_for_spec(unit: &Unit, src: &Endpoint, dst: &Endpoint) -> (r: Option<String>)
    ensures
        opt_view(r) == unit_direction(*unit, *src, *dst),
{
    if unit.bidir {
        return Some(owned("bidir"));
    }
    if unit.legs.len() == 0 {
        return None;
    }
    let (a, b) = match leg_endpoints(&unit.legs[0]) {
        Some(ends) => ends,
        None => {
            return None;
        },
    };
    let (a_key, b_key) = (a.key(), b.key());
    let (src_key, dst_key) = (src.key(), dst.key());
    if same(a_key.as_str(), src_key.as_str()) && same(b_key.as_str(), dst_key.as_str()) {
        Some(owned("ab"))
    } else if same(a_key.as_str(), dst_key.as_str()) && same(b_key.as_str(), src_key.as_str()) {
        Some(owned("ba"))
    } else {
        None
    }
}

} // verus!

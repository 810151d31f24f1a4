//! Interfaces as Linux lists them: `ip -j addr`, `ip -j route` and the files under `/sys/class/net`.
use vstd::prelude::*;
use vstd::string::*;
use crate::import::{push_all_missing, with_texts};
use crate::json::{
    count_in, count_or_none, field_pointer, field_texts, json_text_at, pointer_to_field, text_at,
    texts_in_field,
};
use crate::nic::classify::{classify_role, rank_of, role_of, ROLE_COUNT};
use crate::nic::host::{ipv4_match, prefix_matches};
use crate::protocol::{NicInfo, NicInfoView};
use crate::text::{
    alike, begins, chars_of, contains, copy_opt_text, copy_texts, find_char, group_views, has,
    in_small, index_of, is_alike, lines, lines_of, lists, opt_text, opt_view, or_empty, owned,
    parse_unsigned, read_unsigned, same, starts_with, string_from, strip_prefix, text_or_empty,
    texts, to_lower, trim, trimmed, views,
};

verus! {

// ---------------------------------------------------------------------------
// Addresses
// ---------------------------------------------------------------------------

/// What the listings say of an interface.
#[derive(Debug, Default)]
pub struct IfBlock {
    pub name: String,
    pub flags: Vec<String>,
    pub operstate: String,
    pub ipv4: Option<String>,
    pub ipv6_ll: Option<String>,
    pub ipv6_global: Option<String>,
}

/// What an [`IfBlock`] holds.
pub ghost struct IfBlockView {
    pub name: Seq<char>,
    pub flags: Seq<Seq<char>>,
    pub operstate: Seq<char>,
    pub ipv4: Option<Seq<char>>,
    pub ipv6_ll: Option<Seq<char>>,
    pub ipv6_global: Option<Seq<char>>,
}

impl View for IfBlock {
    type V = IfBlockView;

    open spec fn view(&self) -> IfBlockView {
        IfBlockView {
            name: self.name@,
            flags: texts(self.flags@),
            operstate: self.operstate@,
            ipv4: opt_text(self.ipv4),
            ipv6_ll: opt_text(self.ipv6_ll),
            ipv6_global: opt_text(self.ipv6_global),
        }
    }
}

impl Clone for IfBlock {
    fn clone(&self) -> (r: IfBlock)
        ensures
            r@ == self@,
    {
        IfBlock {
            name: self.name.clone(),
            flags: copy_texts(&self.flags),
            operstate: self.operstate.clone(),
            ipv4: copy_opt_text(&self.ipv4),
            ipv6_ll: copy_opt_text(&self.ipv6_ll),
            ipv6_global: copy_opt_text(&self.ipv6_global),
        }
    }
}

/// One interface in the output of `ip -j addr`.
#[derive(Debug, Default)]
pub struct AddrRecord {
    pub ifname: Option<String>,
    pub flags: Vec<String>,
    pub operstate: Option<String>,
    /// The addresses, as the output spells them.
    pub locals: Vec<String>,
}

/// What an [`AddrRecord`] holds.
pub ghost struct AddrRecordView {
    pub ifname: Option<Seq<char>>,
    pub flags: Seq<Seq<char>>,
    pub operstate: Option<Seq<char>>,
    pub locals: Seq<Seq<char>>,
}

impl View for AddrRecord {
    type V = AddrRecordView;

    open spec fn view(&self) -> AddrRecordView {
        AddrRecordView {
            ifname: opt_text(self.ifname),
            flags: texts(self.flags@),
            operstate: opt_text(self.operstate),
            locals: texts(self.locals@),
        }
    }
}

/// The part of a text before a character, or the whole where the character is not in it.
pub open spec fn before_char(s: Seq<char>, c: char) -> Seq<char> {
    s.take(find_char(s, c, 0))
}

/// The part of a text before a character.
pub fn part_before(s: &str, c: char) -> (r: String)
    ensures
        r@ == before_char(s@, c),
{
    let cs = chars_of(s);
    let k: usize = index_of(cs.as_slice(), c, 0);
    let r = string_from(cs.as_slice(), 0, k);
    assert(s@.subrange(0, k as int) =~= s@.take(k as int));
    r
}

/// An address in small letters, without a zone.
pub open spec fn plain_address(raw: Seq<char>) -> Seq<char> {
    before_char(in_small(raw), '%')
}

/// An address in small letters, without a zone.
pub fn plain_address_of(raw: &str) -> (r: String)
    ensures
        r@ == plain_address(raw@),
{
    let low = to_lower(raw);
    part_before(low.as_str(), '%')
}

/// Whether an address is a global one: it starts with `2` or `3`.
pub open spec fn is_global(address: Seq<char>) -> bool {
    begins(address, "2"@) || begins(address, "3"@)
}

/// A block with an address: the first of each sort stays.
pub open spec fn with_address(block: IfBlockView, raw: Seq<char>, v6: bool) -> IfBlockView {
    with_plain_address(block, plain_address(raw), v6)
}

/// A block with an address in small letters, without a zone: the first of each sort stays.
pub open spec fn with_plain_address(
    block: IfBlockView,
    address: Seq<char>,
    v6: bool,
) -> IfBlockView {
    if v6 {
        if begins(address, "fe80"@) {
            if block.ipv6_ll is None {
                IfBlockView { ipv6_ll: Some(address), ..block }
            } else {
                block
            }
        } else if is_global(address) && block.ipv6_global is None {
            IfBlockView { ipv6_global: Some(address), ..block }
        } else {
            block
        }
    } else if block.ipv4 is None {
        IfBlockView { ipv4: Some(address), ..block }
    } else {
        block
    }
}

/// A block with the first `n` of some addresses.
pub open spec fn with_addresses_to(
    block: IfBlockView,
    locals: Seq<Seq<char>>,
    v6: bool,
    n: int,
) -> IfBlockView
    decreases n,
{
    if n <= 0 {
        block
    } else {
        with_address(with_addresses_to(block, locals, v6, n - 1), locals[n - 1], v6)
    }
}

/// A block with what a record says: flags that are missing, the state where there is none, addresses
/// of sorts that are missing.
pub open spec fn with_record(block: IfBlockView, record: AddrRecordView, v6: bool) -> IfBlockView {
    let flagged = IfBlockView {
        flags: with_texts(block.flags, record.flags),
        operstate: match record.operstate {
            Some(state) => if block.operstate.len() == 0 {
                state
            } else {
                block.operstate
            },
            None => block.operstate,
        },
        ..block
    };
    with_addresses_to(flagged, record.locals, v6, record.locals.len() as int)
}

/// A block of which only the name is known.
pub open spec fn fresh_block(name: Seq<char>) -> IfBlockView {
    IfBlockView {
        name,
        flags: Seq::empty(),
        operstate: Seq::empty(),
        ipv4: None,
        ipv6_ll: None,
        ipv6_global: None,
    }
}

/// Where the block of a name stands, from index `i` on; the length where there is none.
pub open spec fn block_place(blocks: Seq<IfBlockView>, name: Seq<char>, i: int) -> int
    decreases blocks.len() - i,
{
    if i < 0 || i >= blocks.len() {
        blocks.len() as int
    } else if blocks[i].name == name {
        i
    } else {
        block_place(blocks, name, i + 1)
    }
}

/// The blocks with what a record says of the interface that it names.
pub open spec fn absorb(blocks: Seq<IfBlockView>, record: AddrRecordView, v6: bool) -> Seq<
    IfBlockView,
> {
    match record.ifname {
        None => blocks,
        Some(name) => {
            let at = block_place(blocks, name, 0);
            if at < blocks.len() {
                blocks.update(at, with_record(blocks[at], record, v6))
            } else {
                blocks.push(with_record(fresh_block(name), record, v6))
            }
        },
    }
}

/// The blocks that the first `n` records make.
pub open spec fn blocks_to(records: Seq<AddrRecordView>, v6: bool, n: int) -> Seq<IfBlockView>
    decreases n,
{
    if n <= 0 {
        Seq::empty()
    } else {
        absorb(blocks_to(records, v6, n - 1), records[n - 1], v6)
    }
}

/// The first `n` records in the output of `ip -j addr`.
pub open spec fn records_to(document: Seq<char>, n: int) -> Seq<AddrRecordView>
    decreases n,
{
    if n <= 0 {
        Seq::empty()
    } else {
        let i = (n - 1) as nat;
        records_to(document, n - 1).push(
            AddrRecordView {
                ifname: json_text_at(document, field_pointer(""@, i, "/ifname"@)),
                flags: field_texts(document, field_pointer(""@, i, "/flags"@), ""@),
                operstate: json_text_at(document, field_pointer(""@, i, "/operstate"@)),
                locals: field_texts(document, field_pointer(""@, i, "/addr_info"@), "/local"@),
            },
        )
    }
}

/// The records in the output of `ip -j addr`; none where that is no JSON array.
pub open spec fn records_of(document: Seq<char>) -> Seq<AddrRecordView> {
    records_to(document, count_or_none(document, ""@) as int)
}

/// The records in the output of `ip -j addr`.
pub fn addr_records(document: &str) -> (r: Vec<AddrRecord>)
    ensures
        views(r@) == records_of(document@),
{
    broadcast use group_views;

    let n: usize = count_in(document, "");
    let mut r: Vec<AddrRecord> = Vec::new();
    let mut i: usize = 0;
    while i < n
        invariant
            i <= n,
            views(r@) == records_to(document@, i as int),
        decreases n - i,
    {
        let name_at = pointer_to_field("", i, "/ifname");
        let flags_at = pointer_to_field("", i, "/flags");
        let state_at = pointer_to_field("", i, "/operstate");
        let addresses_at = pointer_to_field("", i, "/addr_info");
        let record = AddrRecord {
            ifname: text_at(document, name_at.as_str()),
            flags: texts_in_field(document, flags_at.as_str(), ""),
            operstate: text_at(document, state_at.as_str()),
            locals: texts_in_field(document, addresses_at.as_str(), "/local"),
        };
        r.push(record);
        i += 1;
    }
    r
}

impl IfBlock {
    /// A block of which only the name is known.
    pub fn fresh(name: &str) -> (r: IfBlock)
        ensures
            r@ == fresh_block(name@),
    {
        broadcast use group_views;

        let r = IfBlock {
            name: owned(name),
            flags: Vec::new(),
            operstate: String::new(),
            ipv4: None,
            ipv6_ll: None,
            ipv6_global: None,
        };
        assert(r.operstate@ =~= Seq::<char>::empty());
        r
    }

    /// Adds an address: the first of each sort stays.
    pub fn add_address(&mut self, raw: &str, v6: bool)
        ensures
            final(self)@ == with_address(old(self)@, raw@, v6),
    {
        let address = plain_address_of(raw);
        self.add_plain_address(address, v6);
    }

    /// Adds an address in small letters, without a zone: the first of each sort stays.
    pub fn add_plain_address(&mut self, address: String, v6: bool)
        ensures
            final(self)@ == with_plain_address(old(self)@, address@, v6),
    {
        if v6 {
            if starts_with(address.as_str(), "fe80") {
                if self.ipv6_ll.is_none() {
                    self.ipv6_ll = Some(address);
                }
            } else if (starts_with(address.as_str(), "2") || starts_with(address.as_str(), "3"))
                && self.ipv6_global.is_none() {
                self.ipv6_global = Some(address);
            }
        } else if self.ipv4.is_none() {
            self.ipv4 = Some(address);
        }
    }

    /// Adds what a record says.
    pub fn add_record(&mut self, record: &AddrRecord, v6: bool)
        ensures
            final(self)@ == with_record(old(self)@, record@, v6),
    {
        push_all_missing(&mut self.flags, &record.flags);
        if let Some(state) = &record.operstate {
            if self.operstate.as_str().is_empty() {
                self.operstate = state.clone();
            }
        }
        let ghost flagged = self@;
        let ghost locals = texts(record.locals@);
        assert(locals.len() == record.locals@.len());
        let mut i: usize = 0;
        while i < record.locals.len()
            invariant
                i <= record.locals@.len(),
                locals == texts(record.locals@),
                self@ == with_addresses_to(flagged, locals, v6, i as int),
            decreases record.locals@.len() - i,
        {
            assert(locals[i as int] == record.locals@[i as int]@);
            self.add_address(record.locals[i].as_str(), v6);
            i += 1;
        }
    }
}

/// Where the block of a name stands; the length where there is none.
pub fn place_of_block(blocks: &Vec<IfBlock>, name: &str) -> (r: usize)
    ensures
        r == block_place(views(blocks@), name@, 0),
        r <= blocks@.len(),
{
    let ghost all = views(blocks@);
    assert(all.len() == blocks@.len());
    let mut i: usize = 0;
    while i < blocks.len()
        invariant
            i <= blocks@.len(),
            all == views(blocks@),
            all.len() == blocks@.len(),
            block_place(all, name@, 0) == block_place(all, name@, i as int),
        decreases blocks@.len() - i,
    {
        assert(all[i as int] == blocks@[i as int]@);
        if same(blocks[i].name.as_str(), name) {
            return i;
        }
        i += 1;
    }
    i
}

/// The blocks that records make, one for each name in the order in which they come.
pub fn blocks_from(records: &Vec<AddrRecord>, v6: bool) -> (r: Vec<IfBlock>)
    ensures
        views(r@) == blocks_to(views(records@), v6, records@.len() as int),
{
    broadcast use group_views;

    let ghost all = views(records@);
    let mut r: Vec<IfBlock> = Vec::new();
    let mut i: usize = 0;
    while i < records.len()
        invariant
            i <= records@.len(),
            all == views(records@),
            views(r@) == blocks_to(all, v6, i as int),
        decreases records@.len() - i,
    {
        assert(all[i as int] == records@[i as int]@);
        let ghost before = views(r@);
        if let Some(name) = &records[i].ifname {
            let at: usize = place_of_block(&r, name.as_str());
            assert(before.len() == r@.len());
            if at < r.len() {
                let mut block = r[at].clone();
                block.add_record(&records[i], v6);
                let ghost after = block@;
                r.set(at, block);
                assert(views(r@) =~= before.update(at as int, after));
            } else {
                let mut block = IfBlock::fresh(name.as_str());
                block.add_record(&records[i], v6);
                r.push(block);
            }
        }
        i += 1;
    }
    r
}

/// The interfaces in the output of `ip -j -4 addr` or `ip -j -6 addr`, one block for each name.
pub fn parse_addr_json(document: &str, v6: bool) -> (r: Vec<IfBlock>)
    ensures
        views(r@) == blocks_to(records_of(document@), v6, records_of(document@).len() as int),
{
    let records = addr_records(document);
    assert(views(records@).len() == records@.len());
    blocks_from(&records, v6)
}

proof fn lemma_block_place(blocks: Seq<IfBlockView>, name: Seq<char>, i: int)
    requires
        0 <= i <= blocks.len(),
    ensures
        i <= block_place(blocks, name, i) <= blocks.len(),
        block_place(blocks, name, i) < blocks.len() ==> blocks[block_place(blocks, name, i)].name
            == name,
        forall|k: int| i <= k < block_place(blocks, name, i) ==> (#[trigger] blocks[k]).name
            != name,
    decreases blocks.len() - i,
{
    if i < blocks.len() && blocks[i].name != name {
        lemma_block_place(blocks, name, i + 1);
    }
}

proof fn lemma_addresses_keep_name(
    block: IfBlockView,
    locals: Seq<Seq<char>>,
    v6: bool,
    n: int,
)
    ensures
        with_addresses_to(block, locals, v6, n).name == block.name,
    decreases n,
{
    if n > 0 {
        lemma_addresses_keep_name(block, locals, v6, n - 1);
    }
}

/// However often an interface is listed, it has one block.
pub proof fn lemma_block_names_differ(records: Seq<AddrRecordView>, v6: bool, n: int)
    requires
        0 <= n <= records.len(),
    ensures
        forall|i: int, j: int|
            0 <= i < j < blocks_to(records, v6, n).len() ==> (#[trigger] blocks_to(
                records,
                v6,
                n,
            )[i]).name != (#[trigger] blocks_to(records, v6, n)[j]).name,
    decreases n,
{
    if n > 0 {
        lemma_block_names_differ(records, v6, n - 1);
        let before = blocks_to(records, v6, n - 1);
        let record = records[n - 1];
        if let Some(name) = record.ifname {
            lemma_block_place(before, name, 0);
            let at = block_place(before, name, 0);
            if at < before.len() {
                lemma_record_keeps_name(before[at], record, v6);
            } else {
                lemma_record_keeps_name(fresh_block(name), record, v6);
            }
        }
    }
}

proof fn lemma_record_keeps_name(block: IfBlockView, record: AddrRecordView, v6: bool)
    ensures
        with_record(block, record, v6).name == block.name,
{
    let flagged = IfBlockView {
        flags: with_texts(block.flags, record.flags),
        operstate: match record.operstate {
            Some(state) => if block.operstate.len() == 0 {
                state
            } else {
                block.operstate
            },
            None => block.operstate,
        },
        ..block
    };
    lemma_addresses_keep_name(flagged, record.locals, v6, record.locals.len() as int);
}

// ---------------------------------------------------------------------------
// Both listings together
// ---------------------------------------------------------------------------

/// A block with what the IPv6 listing says of the same interface.
pub open spec fn with_v6(block: IfBlockView, other: IfBlockView) -> IfBlockView {
    IfBlockView {
        ipv6_ll: if block.ipv6_ll is None {
            other.ipv6_ll
        } else {
            block.ipv6_ll
        },
        ipv6_global: if block.ipv6_global is None {
            other.ipv6_global
        } else {
            block.ipv6_global
        },
        operstate: if block.operstate.len() == 0 {
            other.operstate
        } else {
            block.operstate
        },
        ..block
    }
}

/// The blocks of the IPv4 listing with the first `n` of the IPv6 listing.
pub open spec fn merged_to(four: Seq<IfBlockView>, six: Seq<IfBlockView>, n: int) -> Seq<
    IfBlockView,
>
    decreases n,
{
    if n <= 0 {
        four
    } else {
        let before = merged_to(four, six, n - 1);
        let other = six[n - 1];
        let at = block_place(before, other.name, 0);
        if at < before.len() {
            before.update(at, with_v6(before[at], other))
        } else {
            before.push(with_v6(fresh_block(other.name), other))
        }
    }
}

/// The blocks of both listings.
pub fn merge_blocks(four: Vec<IfBlock>, six: &Vec<IfBlock>) -> (r: Vec<IfBlock>)
    ensures
        views(r@) == merged_to(views(four@), views(six@), six@.len() as int),
{
    broadcast use group_views;

    let ghost start = views(four@);
    let ghost others = views(six@);
    let mut r = four;
    let mut i: usize = 0;
    while i < six.len()
        invariant
            i <= six@.len(),
            others == views(six@),
            views(r@) == merged_to(start, others, i as int),
        decreases six@.len() - i,
    {
        assert(others[i as int] == six@[i as int]@);
        let ghost before = views(r@);
        assert(before.len() == r@.len());
        let at: usize = place_of_block(&r, six[i].name.as_str());
        let mut block = if at < r.len() {
            r[at].clone()
        } else {
            IfBlock::fresh(six[i].name.as_str())
        };
        if block.ipv6_ll.is_none() {
            block.ipv6_ll = copy_opt_text(&six[i].ipv6_ll);
        }
        if block.ipv6_global.is_none() {
            block.ipv6_global = copy_opt_text(&six[i].ipv6_global);
        }
        if block.operstate.as_str().is_empty() {
            block.operstate = six[i].operstate.clone();
        }
        let ghost after = block@;
        if at < r.len() {
            r.set(at, block);
            assert(views(r@) =~= before.update(at as int, after));
        } else {
            r.push(block);
        }
        i += 1;
    }
    r
}

// ---------------------------------------------------------------------------
// Gateways
// ---------------------------------------------------------------------------

/// The default gateway of an interface.
#[derive(Debug, Default)]
pub struct Gateway {
    pub dev: String,
    pub gateway: String,
}

/// What a [`Gateway`] holds.
pub ghost struct GatewayView {
    pub dev: Seq<char>,
    pub gateway: Seq<char>,
}

impl View for Gateway {
    type V = GatewayView;

    open spec fn view(&self) -> GatewayView {
        GatewayView { dev: self.dev@, gateway: self.gateway@ }
    }
}

/// The default gateway that a route gives: one to `default` that has a gateway and an interface.
pub open spec fn gateway_of(
    dst: Option<Seq<char>>,
    gateway: Option<Seq<char>>,
    dev: Option<Seq<char>>,
) -> Option<GatewayView> {
    match (dst, gateway, dev) {
        (Some(dst), Some(gateway), Some(dev)) => if dst == "default"@ {
            Some(GatewayView { dev, gateway })
        } else {
            None
        },
        _ => None,
    }
}

/// The default gateway that a route gives.
pub fn gateway_from(
    dst: Option<String>,
    gateway: Option<String>,
    dev: Option<String>,
) -> (r: Option<Gateway>)
    ensures
        opt_view(r) == gateway_of(opt_text(dst), opt_text(gateway), opt_text(dev)),
{
    match (dst, gateway, dev) {
        (Some(dst), Some(gateway), Some(dev)) => if same(dst.as_str(), "default") {
            Some(Gateway { dev, gateway })
        } else {
            None
        },
        _ => None,
    }
}

/// The default gateway that the `i`th route of `ip -j route` gives.
pub open spec fn route_gateway(document: Seq<char>, i: nat) -> Option<GatewayView> {
    gateway_of(
        json_text_at(document, field_pointer(""@, i, "/dst"@)),
        json_text_at(document, field_pointer(""@, i, "/gateway"@)),
        json_text_at(document, field_pointer(""@, i, "/dev"@)),
    )
}

/// The default gateways among the first `n` routes.
pub open spec fn gateways_to(document: Seq<char>, n: int) -> Seq<GatewayView>
    decreases n,
{
    if n <= 0 {
        Seq::empty()
    } else {
        let before = gateways_to(document, n - 1);
        match route_gateway(document, (n - 1) as nat) {
            Some(g) => before.push(g),
            None => before,
        }
    }
}

/// The default gateways in the output of `ip -j route`, in its order.
pub fn parse_gateway_v4(document: &str) -> (r: Vec<Gateway>)
    ensures
        views(r@) == gateways_to(document@, count_or_none(document@, ""@) as int),
{
    broadcast use group_views;

    let n: usize = count_in(document, "");
    let mut r: Vec<Gateway> = Vec::new();
    let mut i: usize = 0;
    while i < n
        invariant
            i <= n,
            views(r@) == gateways_to(document@, i as int),
        decreases n - i,
    {
        let dst_at = pointer_to_field("", i, "/dst");
        let gateway_at = pointer_to_field("", i, "/gateway");
        let dev_at = pointer_to_field("", i, "/dev");
        let dst = text_at(document, dst_at.as_str());
        let gateway = text_at(document, gateway_at.as_str());
        let dev = text_at(document, dev_at.as_str());
        if let Some(found) = gateway_from(dst, gateway, dev) {
            r.push(found);
        }
        i += 1;
    }
    r
}

/// The gateway of an interface, the first that is listed, from index `i` on; empty where none is.
pub open spec fn gateway_for(list: Seq<GatewayView>, dev: Seq<char>, i: int) -> Seq<char>
    decreases list.len() - i,
{
    if i < 0 || i >= list.len() {
        Seq::empty()
    } else if list[i].dev == dev {
        list[i].gateway
    } else {
        gateway_for(list, dev, i + 1)
    }
}

/// The gateway of an interface, the first that is listed; empty where none is.
pub fn find_gateway(list: &Vec<Gateway>, dev: &str) -> (r: String)
    ensures
        r@ == gateway_for(views(list@), dev@, 0),
{
    let ghost all = views(list@);
    assert(all.len() == list@.len());
    let mut i: usize = 0;
    while i < list.len()
        invariant
            i <= list@.len(),
            all == views(list@),
            all.len() == list@.len(),
            gateway_for(all, dev@, 0) == gateway_for(all, dev@, i as int),
        decreases list@.len() - i,
    {
        assert(all[i as int] == list@[i as int]@);
        if same(list[i].dev.as_str(), dev) {
            return list[i].gateway.clone();
        }
        i += 1;
    }
    let r = String::new();
    assert(r@ =~= Seq::<char>::empty());
    r
}

// ---------------------------------------------------------------------------
// Speed and band
// ---------------------------------------------------------------------------

/// What the system says of one interface's link.
#[derive(Debug, Default)]
pub struct LinkProbe {
    pub name: String,
    /// Whether its directory holds one named `wireless`.
    pub is_wifi: bool,
    /// What its file with the speed holds, where it can be read.
    pub speed_file: Option<String>,
    /// What `iw dev <name> info` prints, where that succeeds.
    pub iw_output: Option<String>,
}

/// The speed in megabits that a file tells; zero where it tells none.
pub open spec fn speed_in_file(content: Option<Seq<char>>) -> u64 {
    match content {
        Some(text) => match read_unsigned(trimmed(text), i64::MAX as nat) {
            Some(n) => n as u64,
            None => 0,
        },
        None => 0,
    }
}

/// The speed in megabits that a file tells; zero where it is negative or no number.
pub fn read_speed(content: &Option<String>) -> (r: u64)
    ensures
        r == speed_in_file(opt_text(*content)),
{
    match content {
        Some(text) => match parse_unsigned(trim(text.as_str()), i64::MAX as u64) {
            Some(n) => n,
            None => 0,
        },
        None => 0,
    }
}

/// The band that a line of `iw` tells.
pub open spec fn band_in_line(line: Seq<char>) -> Option<Seq<char>> {
    let t = trimmed(line);
    let rest = t.skip("channel "@.len() as int);
    if !begins(t, "channel "@) {
        None
    } else if has(rest, "(6"@) {
        Some("6GHz"@)
    } else if has(rest, "(5"@) {
        Some("5GHz"@)
    } else if has(rest, "(2"@) {
        Some("2.4GHz"@)
    } else {
        None
    }
}

/// The band that the lines of `iw` tell, from line `i` on; empty where none does.
pub open spec fn band_from(rows: Seq<Seq<char>>, i: int) -> Seq<char>
    decreases rows.len() - i,
{
    if i < 0 || i >= rows.len() {
        Seq::empty()
    } else {
        match band_in_line(rows[i]) {
            Some(band) => band,
            None => band_from(rows, i + 1),
        }
    }
}

/// The band in the output of `iw`; empty where there is none.
pub open spec fn band_in_output(output: Option<Seq<char>>) -> Seq<char> {
    match output {
        Some(text) => band_from(lines_of(text), 0),
        None => Seq::empty(),
    }
}

/// The band in the output of `iw`; empty where there is none.
pub fn wifi_band(output: &Option<String>) -> (r: String)
    ensures
        r@ == band_in_output(opt_text(*output)),
{
    if let Some(text) = output {
        let rows = lines(text.as_str());
        let ghost all = lines_of(text@);
        assert(all.len() == rows@.len());
        let mut i: usize = 0;
        while i < rows.len()
            invariant
                i <= rows@.len(),
                all == texts(rows@),
                all == lines_of(text@),
                all.len() == rows@.len(),
                band_from(all, 0) == band_from(all, i as int),
                *output == Some(*text),
            decreases rows@.len() - i,
        {
            assert(all[i as int] == rows@[i as int]@);
            if let Some(rest) = strip_prefix(trim(rows[i].as_str()), "channel ") {
                if contains(rest, "(6") {
                    return owned("6GHz");
                } else if contains(rest, "(5") {
                    return owned("5GHz");
                } else if contains(rest, "(2") {
                    return owned("2.4GHz");
                }
            }
            i += 1;
        }
    }
    let r = String::new();
    assert(r@ =~= Seq::<char>::empty());
    r
}

// ---------------------------------------------------------------------------
// The scan
// ---------------------------------------------------------------------------

/// Whether an interface is to be listed: no loopback, up, with an IPv4 address that the prefixes
/// admit.
pub open spec fn is_listed(block: IfBlockView, prefixes: Seq<Seq<char>>) -> bool {
    !begins(block.name, "lo"@) && block.flags.contains("UP"@) && !alike(block.operstate, "down"@)
        && match block.ipv4 {
        Some(ip) => prefix_matches(ip, prefixes),
        None => false,
    }
}

/// Whether an interface is to be listed.
pub fn lists_block(block: &IfBlock, prefixes: &Vec<String>) -> (r: bool)
    ensures
        r == is_listed(block@, texts(prefixes@)),
{
    if starts_with(block.name.as_str(), "lo") || !lists(&block.flags, "UP") || is_alike(
        block.operstate.as_str(),
        "down",
    ) {
        return false;
    }
    match &block.ipv4 {
        Some(ip) => ipv4_match(ip.as_str(), prefixes),
        None => false,
    }
}

/// What is known of an interface's link, from index `i` on: whether it is a Wi-Fi one, its speed and
/// its band.
pub open spec fn link_of(probes: Seq<LinkProbe>, name: Seq<char>, i: int) -> (bool, u64, Seq<char>)
    decreases probes.len() - i,
{
    if i < 0 || i >= probes.len() {
        (false, 0, Seq::empty())
    } else if probes[i].name@ == name {
        (
            probes[i].is_wifi,
            speed_in_file(opt_text(probes[i].speed_file)),
            if probes[i].is_wifi {
                band_in_output(opt_text(probes[i].iw_output))
            } else {
                Seq::empty()
            },
        )
    } else {
        link_of(probes, name, i + 1)
    }
}

/// What is known of an interface's link.
pub fn find_link(probes: &Vec<LinkProbe>, name: &str) -> (r: (bool, u64, String))
    ensures
        (r.0, r.1, r.2@) == link_of(probes@, name@, 0),
{
    let mut i: usize = 0;
    while i < probes.len()
        invariant
            i <= probes@.len(),
            link_of(probes@, name@, 0) == link_of(probes@, name@, i as int),
        decreases probes@.len() - i,
    {
        if same(probes[i].name.as_str(), name) {
            let speed: u64 = read_speed(&probes[i].speed_file);
            let band = if probes[i].is_wifi {
                wifi_band(&probes[i].iw_output)
            } else {
                String::new()
            };
            assert(!probes@[i as int].is_wifi ==> band@ =~= Seq::<char>::empty());
            return (probes[i].is_wifi, speed, band);
        }
        i += 1;
    }
    let band = String::new();
    assert(band@ =~= Seq::<char>::empty());
    (false, 0, band)
}

/// A block as an interface.
pub open spec fn nic_of_block(
    block: IfBlockView,
    link: (bool, u64, Seq<char>),
    gateway: Seq<char>,
) -> NicInfoView {
    let description = if link.0 {
        "wireless"@
    } else {
        "ethernet"@
    };
    NicInfoView {
        name: block.name,
        description,
        role: role_of(description, link.1, link.0, link.2),
        ipv4: or_empty(block.ipv4),
        gateway_v4: gateway,
        ipv6_ll: or_empty(block.ipv6_ll),
        ipv6_global: or_empty(block.ipv6_global),
        zone: block.name,
        speed_mbps: link.1,
        is_wifi: link.0,
        wifi_band: link.2,
        ifindex: 0,
    }
}

/// The interfaces that the first `n` blocks make.
pub open spec fn nics_to(
    blocks: Seq<IfBlockView>,
    prefixes: Seq<Seq<char>>,
    gateways: Seq<GatewayView>,
    probes: Seq<LinkProbe>,
    n: int,
) -> Seq<NicInfoView>
    decreases n,
{
    if n <= 0 {
        Seq::empty()
    } else {
        let before = nics_to(blocks, prefixes, gateways, probes, n - 1);
        let block = blocks[n - 1];
        if is_listed(block, prefixes) {
            before.push(
                nic_of_block(
                    block,
                    link_of(probes, block.name, 0),
                    gateway_for(gateways, block.name, 0),
                ),
            )
        } else {
            before
        }
    }
}

/// The interfaces of the blocks that are to be listed, in their order.
pub fn nics_from(
    blocks: &Vec<IfBlock>,
    prefixes: &Vec<String>,
    gateways: &Vec<Gateway>,
    probes: &Vec<LinkProbe>,
) -> (r: Vec<NicInfo>)
    ensures
        views(r@) == nics_to(
            views(blocks@),
            texts(prefixes@),
            views(gateways@),
            probes@,
            blocks@.len() as int,
        ),
{
    broadcast use group_views;

    let ghost all = views(blocks@);
    let mut r: Vec<NicInfo> = Vec::new();
    let mut i: usize = 0;
    while i < blocks.len()
        invariant
            i <= blocks@.len(),
            all == views(blocks@),
            views(r@) == nics_to(all, texts(prefixes@), views(gateways@), probes@, i as int),
        decreases blocks@.len() - i,
    {
        assert(all[i as int] == blocks@[i as int]@);
        let block = &blocks[i];
        if lists_block(block, prefixes) {
            let (is_wifi, speed, band) = find_link(probes, block.name.as_str());
            let description = if is_wifi {
                owned("wireless")
            } else {
                owned("ethernet")
            };
            let role = classify_role(description.as_str(), speed, is_wifi, band.as_str());
            r.push(
                NicInfo {
                    name: block.name.clone(),
                    description,
                    role,
                    ipv4: text_or_empty(&block.ipv4),
                    gateway_v4: find_gateway(gateways, block.name.as_str()),
                    ipv6_ll: text_or_empty(&block.ipv6_ll),
                    ipv6_global: text_or_empty(&block.ipv6_global),
                    zone: block.name.clone(),
                    speed_mbps: speed,
                    is_wifi,
                    wifi_band: band,
                    ifindex: 0,
                },
            );
        }
        i += 1;
    }
    r
}

/// The blocks of both listings of `ip -j addr`.
pub open spec fn blocks_in(four: Seq<char>, six: Seq<char>) -> Seq<IfBlockView> {
    let others = blocks_to(records_of(six), true, records_of(six).len() as int);
    merged_to(
        blocks_to(records_of(four), false, records_of(four).len() as int),
        others,
        others.len() as int,
    )
}

/// The blocks of both listings of `ip -j addr`: whose links are worth a look.
pub fn read_blocks(four: &str, six: &str) -> (r: Vec<IfBlock>)
    ensures
        views(r@) == blocks_in(four@, six@),
{
    let blocks = parse_addr_json(four, false);
    let others = parse_addr_json(six, true);
    assert(views(others@).len() == others@.len());
    merge_blocks(blocks, &others)
}

/// The interfaces of a Linux host, from what `ip -j -4 addr`, `ip -j -6 addr` and `ip -j route` print
/// and from what is known of the links.
pub fn scan_all(
    prefixes: &Vec<String>,
    four: &str,
    six: &str,
    routes: &str,
    probes: &Vec<LinkProbe>,
) -> (r: Vec<NicInfo>)
    ensures
        views(r@) == nics_to(
            blocks_in(four@, six@),
            texts(prefixes@),
            gateways_to(routes@, count_or_none(routes@, ""@) as int),
            probes@,
            blocks_in(four@, six@).len() as int,
        ),
{
    let blocks = read_blocks(four, six);
    let gateways = parse_gateway_v4(routes);
    assert(views(blocks@).len() == blocks@.len());
    nics_from(&blocks, prefixes, &gateways, probes)
}

/// Every interface that a scan lists is one of a block that is up and no loopback, has an address that
/// the prefixes admit, and the role that its description, speed and band tell.
pub proof fn lemma_scan_lists_only_admitted(
    blocks: Seq<IfBlockView>,
    prefixes: Seq<Seq<char>>,
    gateways: Seq<GatewayView>,
    probes: Seq<LinkProbe>,
    n: int,
    k: int,
)
    requires
        0 <= n <= blocks.len(),
        0 <= k < nics_to(blocks, prefixes, gateways, probes, n).len(),
    ensures
        ({
            let nic = nics_to(blocks, prefixes, gateways, probes, n)[k];
            &&& prefix_matches(nic.ipv4, prefixes)
            &&& !begins(nic.name, "lo"@)
            &&& exists|b: int|
                0 <= b < n && is_listed(#[trigger] blocks[b], prefixes) && blocks[b].name == nic.name
            &&& nic.role == role_of(nic.description, nic.speed_mbps, nic.is_wifi, nic.wifi_band)
            &&& rank_of(nic.role) < ROLE_COUNT
        }),
    decreases n,
{
    if n > 0 {
        let before = nics_to(blocks, prefixes, gateways, probes, n - 1);
        if k < before.len() {
            lemma_scan_lists_only_admitted(blocks, prefixes, gateways, probes, n - 1, k);
        } else {
            assert(is_listed(blocks[n - 1], prefixes));
        }
    }
}

} // verus!

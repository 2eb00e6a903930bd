//! The parsed-packet context: a DNS message buffer together with the three
//! derived section-start offsets, computed once by walking past the question
//! section and, for the later sections, past every preceding record.

use vstd::prelude::*;

use crate::cursor::be16;
use crate::cursor::lemma_skip_name_bounds;
use crate::cursor::read_u16;
use crate::cursor::skip_name;
use crate::cursor::skip_rdata;
use crate::cursor::spec_skip_name;
use crate::cursor::spec_skip_rdata;
use crate::cursor::spec_skip_record;
use crate::errors::DnsError;

verus! {

/// One of the four logical record groups of a DNS message.
#[derive(Clone, Copy, PartialEq, Eq, Structural, Debug)]
pub enum Section {
    Question,
    Answer,
    NameServers,
    Additional,
}

/// QDCOUNT: number of question entries, from header bytes 4 and 5.
pub open spec fn spec_qdcount(s: Seq<u8>) -> int {
    be16(s, 4)
}

/// ANCOUNT: number of answer records, from header bytes 6 and 7.
pub open spec fn spec_ancount(s: Seq<u8>) -> int {
    be16(s, 6)
}

/// NSCOUNT: number of name-server records, from header bytes 8 and 9.
pub open spec fn spec_nscount(s: Seq<u8>) -> int {
    be16(s, 8)
}

/// ARCOUNT: number of additional records, from header bytes 10 and 11.
pub open spec fn spec_arcount(s: Seq<u8>) -> int {
    be16(s, 10)
}

/// Offset just past the question entry at `off`: a name, then 2 bytes QTYPE
/// and 2 bytes QCLASS.
pub open spec fn spec_skip_question(s: Seq<u8>, off: int) -> Option<int> {
    match spec_skip_name(s, off) {
        Some(name_end) => if name_end + 4 <= s.len() {
            Some(name_end + 4)
        } else {
            None
        },
        None => None,
    }
}

/// Offset just past `n` consecutive question entries starting at `off`.
pub open spec fn spec_skip_questions(s: Seq<u8>, off: int, n: nat) -> Option<int>
    decreases n,
{
    if n == 0 {
        Some(off)
    } else {
        match spec_skip_question(s, off) {
            Some(o2) => spec_skip_questions(s, o2, (n - 1) as nat),
            None => None,
        }
    }
}

/// Offset just past `n` consecutive resource records starting at `off`.
pub open spec fn spec_skip_records(s: Seq<u8>, off: int, n: nat) -> Option<int>
    decreases n,
{
    if n == 0 {
        Some(off)
    } else {
        match spec_skip_record(s, off) {
            Some(o2) => spec_skip_records(s, o2, (n - 1) as nat),
            None => None,
        }
    }
}

/// Walking one more record from a walk that ended at `mid` appends the
/// record at `mid` to the walk.
pub proof fn lemma_skip_records_snoc(s: Seq<u8>, off: int, n: nat, mid: int)
    requires
        spec_skip_records(s, off, n) == Some(mid),
        spec_skip_record(s, mid) is Some,
    ensures
        spec_skip_records(s, off, n + 1) == spec_skip_record(s, mid),
    decreases n,
{
    if n == 0 {
        let o2 = spec_skip_record(s, mid)->Some_0;
        assert(spec_skip_records(s, o2, 0) == Some(o2));
        assert(spec_skip_records(s, off, 1) == spec_skip_records(s, o2, 0));
    } else {
        let o2 = spec_skip_record(s, off)->Some_0;
        lemma_skip_records_snoc(s, o2, (n - 1) as nat, mid);
        assert(spec_skip_records(s, off, n + 1) == spec_skip_records(s, o2, n));
    }
}

/// A record walk never moves backwards.
pub proof fn lemma_skip_records_lb(s: Seq<u8>, off: int, n: nat)
    requires
        spec_skip_records(s, off, n) is Some,
    ensures
        off <= spec_skip_records(s, off, n)->Some_0,
    decreases n,
{
    if n != 0 {
        let o2 = spec_skip_record(s, off)->Some_0;
        lemma_skip_name_bounds(s, off);
        lemma_skip_records_lb(s, o2, (n - 1) as nat);
    }
}

/// A question walk never moves backwards.
pub proof fn lemma_skip_questions_lb(s: Seq<u8>, off: int, n: nat)
    requires
        spec_skip_questions(s, off, n) is Some,
    ensures
        off <= spec_skip_questions(s, off, n)->Some_0,
    decreases n,
{
    if n != 0 {
        let o2 = spec_skip_question(s, off)->Some_0;
        lemma_skip_name_bounds(s, off);
        lemma_skip_questions_lb(s, o2, (n - 1) as nat);
    }
}

/// A walk of `a + b` records is the walk of the first `a` followed by the
/// walk of the remaining `b` from where the first part ended.
pub proof fn lemma_skip_records_split(s: Seq<u8>, off: int, a: nat, b: nat)
    requires
        spec_skip_records(s, off, a) is Some,
    ensures
        spec_skip_records(s, off, a + b) == spec_skip_records(
            s,
            spec_skip_records(s, off, a)->Some_0,
            b,
        ),
    decreases a,
{
    if a != 0 {
        let o2 = spec_skip_record(s, off)->Some_0;
        lemma_skip_records_split(s, o2, (a - 1) as nat, b);
        assert(spec_skip_records(s, off, a + b) == spec_skip_records(s, o2, (a + b - 1) as nat));
    }
}

/// A record walk reads no byte before its start: updating such a byte leaves
/// the walk's outcome unchanged, success or failure alike.
pub proof fn lemma_skip_records_update_before(s: Seq<u8>, off: int, n: nat, p: int, v: u8)
    requires
        0 <= p < s.len(),
        p < off,
    ensures
        spec_skip_records(s.update(p, v), off, n) == spec_skip_records(s, off, n),
    decreases n,
{
    if n != 0 {
        crate::cursor::lemma_skip_name_update_before(s, off, p, v);
        match spec_skip_name(s, off) {
            Some(name_end) => {
                lemma_skip_name_bounds(s, off);
                crate::cursor::lemma_skip_rdata_update_before(s, name_end, p, v);
                match spec_skip_rdata(s, name_end) {
                    Some(o2) => {
                        lemma_skip_records_update_before(s, o2, (n - 1) as nat, p, v);
                    },
                    None => {},
                }
            },
            None => {},
        }
    }
}

/// A successful record walk reads no byte at or past its end: updating such
/// a byte leaves the walk's result unchanged.
pub proof fn lemma_skip_records_update_after(s: Seq<u8>, off: int, n: nat, p: int, v: u8)
    requires
        0 <= p < s.len(),
        spec_skip_records(s, off, n) is Some,
        p >= spec_skip_records(s, off, n)->Some_0,
    ensures
        spec_skip_records(s.update(p, v), off, n) == spec_skip_records(s, off, n),
    decreases n,
{
    if n != 0 {
        let name_end = spec_skip_name(s, off)->Some_0;
        let o2 = spec_skip_rdata(s, name_end)->Some_0;
        lemma_skip_records_lb(s, o2, (n - 1) as nat);
        crate::cursor::lemma_skip_name_update_after(s, off, p, v);
        crate::cursor::lemma_skip_rdata_update_elsewhere(s, name_end, p, v);
        lemma_skip_records_update_after(s, o2, (n - 1) as nat, p, v);
    }
}

/// A successful question walk reads no byte at or past its end: updating
/// such a byte leaves the walk's result unchanged.
pub proof fn lemma_skip_questions_update_after(s: Seq<u8>, off: int, n: nat, p: int, v: u8)
    requires
        0 <= p < s.len(),
        spec_skip_questions(s, off, n) is Some,
        p >= spec_skip_questions(s, off, n)->Some_0,
    ensures
        spec_skip_questions(s.update(p, v), off, n) == spec_skip_questions(s, off, n),
    decreases n,
{
    if n != 0 {
        let name_end = spec_skip_name(s, off)->Some_0;
        let o2 = name_end + 4;
        lemma_skip_questions_lb(s, o2, (n - 1) as nat);
        crate::cursor::lemma_skip_name_update_after(s, off, p, v);
        lemma_skip_questions_update_after(s, o2, (n - 1) as nat, p, v);
    }
}

/// Updating a byte of one record's TYPE, CLASS or TTL fields or of its RDATA
/// — never its name or RDLENGTH bytes — leaves the outcome of any walk that
/// passes over that record unchanged.  The record is the one reached after
/// `k` of the walk's `total` records: it starts at `o`, its name ends at
/// `ne`, and it ends at `nx`.
pub proof fn lemma_walk_update_in_record(
    s: Seq<u8>,
    start: int,
    total: nat,
    k: nat,
    o: int,
    ne: int,
    nx: int,
    p: int,
    v: u8,
)
    requires
        0 <= p < s.len(),
        spec_skip_records(s, start, k) == Some(o),
        spec_skip_name(s, o) == Some(ne),
        spec_skip_rdata(s, ne) == Some(nx),
        k < total,
        ne <= p < ne + 8 || ne + 10 <= p < nx,
    ensures
        spec_skip_records(s.update(p, v), start, total) == spec_skip_records(s, start, total),
{
    let s2 = s.update(p, v);
    lemma_skip_name_bounds(s, o);
    lemma_skip_records_update_after(s, start, k, p, v);
    crate::cursor::lemma_skip_name_update_after(s, o, p, v);
    crate::cursor::lemma_skip_rdata_update_elsewhere(s, ne, p, v);
    lemma_skip_records_snoc(s, start, k, o);
    lemma_skip_records_snoc(s2, start, k, o);
    lemma_skip_records_split(s, start, (k + 1) as nat, (total - k - 1) as nat);
    lemma_skip_records_split(s2, start, (k + 1) as nat, (total - k - 1) as nat);
    lemma_skip_records_update_before(s, nx, (total - k - 1) as nat, p, v);
}

/// Start of the answer section: just past the header and the question section.
pub open spec fn spec_offset_answers(s: Seq<u8>) -> Option<int> {
    spec_skip_questions(s, 12, spec_qdcount(s) as nat)
}

/// Start of the name-server section: just past every answer record.
pub open spec fn spec_offset_nameservers(s: Seq<u8>) -> Option<int> {
    match spec_offset_answers(s) {
        Some(o) => spec_skip_records(s, o, spec_ancount(s) as nat),
        None => None,
    }
}

/// Start of the additional section: just past every name-server record.
pub open spec fn spec_offset_additional(s: Seq<u8>) -> Option<int> {
    match spec_offset_nameservers(s) {
        Some(o) => spec_skip_records(s, o, spec_nscount(s) as nat),
        None => None,
    }
}

/// A derived offset field agrees with its specification value: present
/// exactly when the walk succeeds, and then equal to the walk's result.
pub open spec fn offset_matches(field: Option<usize>, walk: Option<int>) -> bool {
    match field {
        Some(o) => walk == Some(o as int),
        None => walk is None,
    }
}

/// Owns a DNS message buffer of at least 12 bytes together with the derived
/// start offsets of the three record sections.  An offset field is `None`
/// when the header counts are inconsistent with the buffer, so that no
/// out-of-range offset is ever produced; iterating such a section fails with
/// `InvalidPacket` instead.
pub struct ParsedPacket {
    pub packet: Vec<u8>,
    pub offset_answers: Option<usize>,
    pub offset_nameservers: Option<usize>,
    pub offset_additional: Option<usize>,
}

impl ParsedPacket {
    /// The buffer holds a full header and every derived offset is exactly
    /// the walk the wire format prescribes.
    pub open spec fn wf(self) -> bool {
        &&& self.packet@.len() >= 12
        &&& offset_matches(self.offset_answers, spec_offset_answers(self.packet@))
        &&& offset_matches(self.offset_nameservers, spec_offset_nameservers(self.packet@))
        &&& offset_matches(self.offset_additional, spec_offset_additional(self.packet@))
    }

    /// Header count of the section, as the wire format declares it.
    pub open spec fn spec_section_count(self, section: Section) -> int {
        match section {
            Section::Question => spec_qdcount(self.packet@),
            Section::Answer => spec_ancount(self.packet@),
            Section::NameServers => spec_nscount(self.packet@),
            Section::Additional => spec_arcount(self.packet@),
        }
    }

    /// Derived start offset of the section, when it could be derived.
    pub open spec fn spec_section_start(self, section: Section) -> Option<usize> {
        match section {
            Section::Question => Some(12usize),
            Section::Answer => self.offset_answers,
            Section::NameServers => self.offset_nameservers,
            Section::Additional => self.offset_additional,
        }
    }

    /// Wraps a buffer and derives the three section-start offsets.  Fails
    /// with `PacketTooSmall` exactly when the buffer cannot hold the 12-byte
    /// header; a section whose offset cannot be derived within bounds gets
    /// `None` instead of an out-of-range value.
    pub fn new(packet: Vec<u8>) -> (r: Result<ParsedPacket, DnsError>)
        ensures
            match r {
                Ok(pp) => packet@.len() >= 12 && pp.packet@ == packet@ && pp.wf(),
                Err(e) => packet@.len() < 12 && e == DnsError::PacketTooSmall,
            },
    {
        if packet.len() < 12 {
            return Err(DnsError::PacketTooSmall);
        }
        let qd = read_u16(&packet, 4);
        let an = read_u16(&packet, 6);
        let ns = read_u16(&packet, 8);
        let offset_answers = skip_questions(&packet, 12, qd);
        let offset_nameservers = match offset_answers {
            Some(o) => skip_records(&packet, o, an),
            None => None,
        };
        let offset_additional = match offset_nameservers {
            Some(o) => skip_records(&packet, o, ns),
            None => None,
        };
        Ok(ParsedPacket { packet, offset_answers, offset_nameservers, offset_additional })
    }

    /// QDCOUNT read from the header.
    pub fn qdcount(&self) -> (r: u16)
        requires
            self.packet@.len() >= 12,
        ensures
            r as int == spec_qdcount(self.packet@),
    {
        read_u16(&self.packet, 4)
    }

    /// ANCOUNT read from the header.
    pub fn ancount(&self) -> (r: u16)
        requires
            self.packet@.len() >= 12,
        ensures
            r as int == spec_ancount(self.packet@),
    {
        read_u16(&self.packet, 6)
    }

    /// NSCOUNT read from the header.
    pub fn nscount(&self) -> (r: u16)
        requires
            self.packet@.len() >= 12,
        ensures
            r as int == spec_nscount(self.packet@),
    {
        read_u16(&self.packet, 8)
    }

    /// ARCOUNT read from the header.
    pub fn arcount(&self) -> (r: u16)
        requires
            self.packet@.len() >= 12,
        ensures
            r as int == spec_arcount(self.packet@),
    {
        read_u16(&self.packet, 10)
    }
}

/// Walks `n` question entries starting at `start`; `None` when any entry is
/// malformed or runs past the buffer end.
fn skip_questions(packet: &Vec<u8>, start: usize, n: u16) -> (r: Option<usize>)
    ensures
        offset_matches(r, spec_skip_questions(packet@, start as int, n as nat)),
{
    let len = packet.len();
    let mut cur: usize = start;
    let mut i: u16 = 0;
    while i < n
        invariant
            len == packet@.len(),
            i <= n,
            spec_skip_questions(packet@, start as int, n as nat) == spec_skip_questions(
                packet@,
                cur as int,
                (n - i) as nat,
            ),
        decreases n - i,
    {
        let name_end = match skip_name(packet, cur) {
            Ok(e) => e,
            Err(_) => {
                return None;
            },
        };
        proof {
            lemma_skip_name_bounds(packet@, cur as int);
        }
        if len - name_end >= 4 {
            cur = name_end + 4;
            i = i + 1;
        } else {
            return None;
        }
    }
    Some(cur)
}

/// Walks `n` resource records starting at `start`; `None` when any record is
/// malformed or runs past the buffer end.
fn skip_records(packet: &Vec<u8>, start: usize, n: u16) -> (r: Option<usize>)
    ensures
        offset_matches(r, spec_skip_records(packet@, start as int, n as nat)),
{
    let mut cur: usize = start;
    let mut i: u16 = 0;
    while i < n
        invariant
            i <= n,
            spec_skip_records(packet@, start as int, n as nat) == spec_skip_records(
                packet@,
                cur as int,
                (n - i) as nat,
            ),
        decreases n - i,
    {
        let name_end = match skip_name(packet, cur) {
            Ok(e) => e,
            Err(_) => {
                return None;
            },
        };
        let next = match skip_rdata(packet, name_end) {
            Ok(e) => e,
            Err(_) => {
                return None;
            },
        };
        cur = next;
        i = i + 1;
    }
    Some(cur)
}

} // verus!

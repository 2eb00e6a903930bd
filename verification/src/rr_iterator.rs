//! The per-section iteration state machine: a cursor that resolves its
//! record count and start offset from the header on the first advance, then
//! walks records one at a time with the name and record cursors.

use vstd::prelude::*;

use crate::cursor::lemma_skip_name_bounds;
use crate::cursor::skip_name;
use crate::cursor::skip_rdata;
use crate::cursor::spec_skip_name;
use crate::cursor::spec_skip_rdata;
use crate::errors::DnsError;
use crate::packet::ParsedPacket;
use crate::packet::Section;
use crate::packet::spec_ancount;
use crate::packet::spec_arcount;
use crate::packet::spec_nscount;
use crate::packet::spec_offset_answers;
use crate::packet::spec_offset_nameservers;
use crate::packet::spec_qdcount;
use crate::packet::spec_skip_records;

verus! {

/// Zero-copy read window onto one record: its name span `[offset,
/// name_end_offset)` and its fixed fields, which sit at fixed displacements
/// from the name's end.  A view is derived from a positioned cursor and is
/// meaningful only until that cursor is advanced again.
pub struct RecordView {
    pub offset: usize,
    pub name_end_offset: usize,
    pub next_offset: usize,
}

impl RecordView {
    /// The view describes a real record of the packet: the two cursors
    /// confirm its name span and its RDATA end.
    pub open spec fn wf(self, pp: ParsedPacket) -> bool {
        &&& spec_skip_name(pp.packet@, self.offset as int) == Some(self.name_end_offset as int)
        &&& spec_skip_rdata(pp.packet@, self.name_end_offset as int) == Some(
            self.next_offset as int,
        )
    }

    /// TYPE field: 2 bytes at the name's end.
    pub fn rr_type(&self, pp: &ParsedPacket) -> (r: u16)
        requires
            self.wf(*pp),
        ensures
            r as int == crate::cursor::be16(pp.packet@, self.name_end_offset as int),
    {
        proof {
            vstd::std_specs::vec::axiom_spec_len(&pp.packet);
        }
        crate::cursor::read_u16(&pp.packet, self.name_end_offset)
    }

    /// CLASS field: 2 bytes past TYPE.
    pub fn rr_class(&self, pp: &ParsedPacket) -> (r: u16)
        requires
            self.wf(*pp),
        ensures
            r as int == crate::cursor::be16(pp.packet@, self.name_end_offset + 2),
    {
        proof {
            vstd::std_specs::vec::axiom_spec_len(&pp.packet);
        }
        crate::cursor::read_u16(&pp.packet, self.name_end_offset + 2)
    }

    /// TTL field: 4 bytes past CLASS.
    pub fn rr_ttl(&self, pp: &ParsedPacket) -> (r: u32)
        requires
            self.wf(*pp),
        ensures
            r as int == crate::cursor::be32(pp.packet@, self.name_end_offset + 4),
    {
        proof {
            vstd::std_specs::vec::axiom_spec_len(&pp.packet);
        }
        crate::cursor::read_u32(&pp.packet, self.name_end_offset + 4)
    }

    /// RDLENGTH field: 2 bytes past TTL; always the length of the RDATA span.
    pub fn rr_rdlength(&self, pp: &ParsedPacket) -> (r: u16)
        requires
            self.wf(*pp),
        ensures
            r as int == crate::cursor::be16(pp.packet@, self.name_end_offset + 8),
            self.name_end_offset + 10 + r == self.next_offset,
    {
        proof {
            vstd::std_specs::vec::axiom_spec_len(&pp.packet);
        }
        crate::cursor::read_u16(&pp.packet, self.name_end_offset + 8)
    }

    /// Byte offset where the RDATA span begins.
    pub fn rdata_offset(&self, pp: &ParsedPacket) -> (r: usize)
        requires
            self.wf(*pp),
        ensures
            r == self.name_end_offset + 10,
    {
        proof {
            vstd::std_specs::vec::axiom_spec_len(&pp.packet);
        }
        self.name_end_offset + 10
    }

    /// Number of RDATA bytes, equal to the stored RDLENGTH.
    pub fn rdata_len(&self, pp: &ParsedPacket) -> (r: usize)
        requires
            self.wf(*pp),
        ensures
            r == self.next_offset - (self.name_end_offset + 10),
    {
        proof {
            vstd::std_specs::vec::axiom_spec_len(&pp.packet);
        }
        self.next_offset - (self.name_end_offset + 10)
    }

    /// The RDATA byte at displacement `i` within the record's payload.
    pub fn rdata_byte(&self, pp: &ParsedPacket, i: usize) -> (r: u8)
        requires
            self.wf(*pp),
            i < self.next_offset - (self.name_end_offset + 10),
        ensures
            r == pp.packet@[self.name_end_offset + 10 + i],
    {
        proof {
            vstd::std_specs::vec::axiom_spec_len(&pp.packet);
        }
        pp.packet[self.name_end_offset + 10 + i]
    }
}

/// Cursor over one record section of one packet.
///
/// `started == false` means the count and start offset have not yet been
/// resolved from the header; `current_offset` is `Some` exactly while the
/// cursor is positioned on a record, whose name ends at `name_end_offset`
/// and whose RDATA ends at `next_offset`; `records_remaining` counts the
/// records not yet visited after the current one.
pub struct RRIterator {
    pub section: Section,
    pub started: bool,
    pub records_remaining: u16,
    pub current_offset: Option<usize>,
    pub name_end_offset: usize,
    pub next_offset: usize,
}

impl RRIterator {
    /// The state a cursor is created in, before the first advance.
    pub open spec fn fresh(section: Section) -> RRIterator {
        RRIterator {
            section,
            started: false,
            records_remaining: 0,
            current_offset: None,
            name_end_offset: 0,
            next_offset: 0,
        }
    }

    /// Binds a cursor to one record section, not yet started.
    pub fn new(section: Section) -> (r: RRIterator)
        ensures
            r == RRIterator::fresh(section),
    {
        RRIterator {
            section,
            started: false,
            records_remaining: 0,
            current_offset: None,
            name_end_offset: 0,
            next_offset: 0,
        }
    }

    /// The cursor's invariant against its packet.  While positioned, the
    /// record span lies within the buffer, the two cursor results for it are
    /// recorded exactly, and the position is the one reached by walking
    /// `count - records_remaining - 1` records from the section start.
    pub open spec fn wf(self, pp: ParsedPacket) -> bool {
        &&& pp.wf()
        &&& self.section != Section::Question
        &&& !self.started ==> self.current_offset is None && self.records_remaining == 0
        &&& self.started && self.current_offset is None ==> self.records_remaining == 0
        &&& match self.current_offset {
            Some(o) => {
                &&& self.started
                &&& spec_skip_name(pp.packet@, o as int) == Some(self.name_end_offset as int)
                &&& spec_skip_rdata(pp.packet@, self.name_end_offset as int) == Some(
                    self.next_offset as int,
                )
                &&& o <= self.name_end_offset <= self.next_offset <= pp.packet@.len()
                &&& (self.records_remaining as int) < pp.spec_section_count(self.section)
                &&& pp.spec_section_start(self.section) matches Some(start)
                    && spec_skip_records(
                    pp.packet@,
                    start as int,
                    (pp.spec_section_count(self.section) - self.records_remaining - 1) as nat,
                ) == Some(o as int)
            },
            None => true,
        }
    }

    /// Termination measure for repeated advances.
    pub open spec fn advance_measure(self, pp: ParsedPacket) -> int {
        if self.started {
            self.records_remaining as int
        } else {
            pp.spec_section_count(self.section) + 1
        }
    }

    /// One advance of the plain section cursor, as a mathematical state
    /// machine: resolves the section on the first step, reports exhaustion
    /// when no record is left, and otherwise positions the cursor on the
    /// next record.  On an error the state is returned unchanged.
    pub open spec fn advance_step(pp: ParsedPacket, it: RRIterator) -> (RRIterator, Result<
        bool,
        DnsError,
    >) {
        if !it.started {
            if pp.spec_section_count(it.section) == 0 {
                (
                    RRIterator { started: true, records_remaining: 0, current_offset: None, ..it },
                    Ok(false),
                )
            } else {
                match pp.spec_section_start(it.section) {
                    Some(start) => RRIterator::step_onto_record(
                        pp,
                        it,
                        pp.spec_section_count(it.section) as u16,
                        start,
                    ),
                    None => (it, Err(DnsError::InvalidPacket)),
                }
            }
        } else {
            if it.records_remaining == 0 {
                (RRIterator { current_offset: None, ..it }, Ok(false))
            } else {
                RRIterator::step_onto_record(pp, it, it.records_remaining, it.next_offset)
            }
        }
    }

    /// Positions the cursor on the record that starts at `off`, with
    /// `remaining` records (the record at `off` included) still unvisited.
    /// A cursor failure leaves the state unchanged and is propagated with
    /// the error kinds of `skip_name` and `skip_rdata`.
    pub open spec fn step_onto_record(
        pp: ParsedPacket,
        it: RRIterator,
        remaining: u16,
        off: usize,
    ) -> (RRIterator, Result<bool, DnsError>) {
        let s = pp.packet@;
        match spec_skip_name(s, off as int) {
            Some(name_end) => match spec_skip_rdata(s, name_end) {
                Some(next) => (
                    RRIterator {
                        section: it.section,
                        started: true,
                        records_remaining: (remaining - 1) as u16,
                        current_offset: Some(off),
                        name_end_offset: name_end as usize,
                        next_offset: next as usize,
                    },
                    Ok(true),
                ),
                None => (
                    it,
                    Err(
                        if name_end + 10 > s.len() {
                            DnsError::PacketTooSmall
                        } else {
                            DnsError::InvalidPacket
                        },
                    ),
                ),
            },
            None => (
                it,
                Err(
                    if off as int >= s.len() {
                        DnsError::PacketTooSmall
                    } else {
                        DnsError::InvalidName
                    },
                ),
            ),
        }
    }

    /// One advance step preserves the cursor invariant, and a successful
    /// step lands on a record no earlier than the old record's end.
    pub proof fn lemma_advance_step_wf(pp: ParsedPacket, it: RRIterator)
        requires
            it.wf(pp),
        ensures
            ({
                let (it2, r) = RRIterator::advance_step(pp, it);
                &&& it2.wf(pp)
                &&& r == Ok::<bool, DnsError>(true) ==> {
                    &&& it2.started
                    &&& it2.current_offset is Some
                    &&& it.started ==> it2.current_offset->Some_0 == it.next_offset
                        && it2.records_remaining < it.records_remaining
                }
                &&& r is Err ==> it2 == it
                &&& r == Ok::<bool, DnsError>(false) ==> it2.current_offset is None
            }),
    {
        let s = pp.packet@;
        let count = pp.spec_section_count(it.section);
        if !it.started {
            if count != 0 {
                match pp.spec_section_start(it.section) {
                    Some(start) => {
                        RRIterator::lemma_step_onto_record_wf(pp, it, count as u16, start, 0);
                    },
                    None => {},
                }
            }
        } else {
            if it.records_remaining != 0 {
                let o = it.current_offset->Some_0;
                let start = pp.spec_section_start(it.section)->Some_0;
                let walked = (count - it.records_remaining - 1) as nat;
                crate::packet::lemma_skip_records_snoc(s, start as int, walked, o as int);
                RRIterator::lemma_step_onto_record_wf(
                    pp,
                    it,
                    it.records_remaining,
                    it.next_offset,
                    (walked + 1) as nat,
                );
            }
        }
    }

    /// Helper for `lemma_advance_step_wf`: a record step onto `off`, reached
    /// by walking `walked` records from the section start, yields a
    /// well-formed cursor.
    proof fn lemma_step_onto_record_wf(
        pp: ParsedPacket,
        it: RRIterator,
        remaining: u16,
        off: usize,
        walked: nat,
    )
        requires
            it.wf(pp),
            remaining >= 1,
            pp.spec_section_start(it.section) is Some,
            walked == pp.spec_section_count(it.section) - remaining,
            spec_skip_records(
                pp.packet@,
                pp.spec_section_start(it.section)->Some_0 as int,
                walked,
            ) == Some(off as int),
        ensures
            ({
                let (it2, r) = RRIterator::step_onto_record(pp, it, remaining, off);
                &&& it2.wf(pp)
                &&& r == Ok::<bool, DnsError>(true) ==> it2.started && it2.current_offset == Some(
                    off,
                ) && it2.records_remaining == remaining - 1
                &&& r is Err ==> it2 == it
            }),
    {
        let s = pp.packet@;
        vstd::std_specs::vec::axiom_spec_len(&pp.packet);
        if spec_skip_name(s, off as int) is Some {
            crate::cursor::lemma_skip_name_bounds(s, off as int);
            let name_end = spec_skip_name(s, off as int)->Some_0;
            assert(0 <= name_end <= s.len());
            if spec_skip_rdata(s, name_end) is Some {
                let next = spec_skip_rdata(s, name_end)->Some_0;
                assert(name_end <= next <= s.len());
                let (it2, r) = RRIterator::step_onto_record(pp, it, remaining, off);
                assert(it2.name_end_offset as int == name_end);
                assert(it2.next_offset as int == next);
                assert(spec_skip_records(
                    pp.packet@,
                    pp.spec_section_start(it.section)->Some_0 as int,
                    (pp.spec_section_count(it.section) - it2.records_remaining - 1) as nat,
                ) == Some(off as int));
            }
        }
    }

    /// Writing one byte of the current record's TYPE, CLASS or TTL fields,
    /// or of its RDATA — never its name or RDLENGTH bytes — changes no
    /// header count, no derived section offset and no cursor fact: the
    /// packet context and the cursor both stay well formed.
    pub proof fn lemma_record_write_preserves_wf(
        pp: ParsedPacket,
        pp2: ParsedPacket,
        it: RRIterator,
        p: int,
        v: u8,
    )
        requires
            it.wf(pp),
            it.current_offset is Some,
            pp2.packet@ == pp.packet@.update(p, v),
            pp2.offset_answers == pp.offset_answers,
            pp2.offset_nameservers == pp.offset_nameservers,
            pp2.offset_additional == pp.offset_additional,
            it.name_end_offset <= p < it.name_end_offset + 8 || it.name_end_offset + 10 <= p
                < it.next_offset,
        ensures
            pp2.wf(),
            it.wf(pp2),
    {
        let s = pp.packet@;
        let s2 = pp2.packet@;
        let o = it.current_offset->Some_0 as int;
        let ne = it.name_end_offset as int;
        let nx = it.next_offset as int;
        let count = pp.spec_section_count(it.section);
        let start = pp.spec_section_start(it.section)->Some_0 as int;
        let k = (count - it.records_remaining - 1) as nat;
        let qd = spec_qdcount(s) as nat;
        let an = spec_ancount(s) as nat;
        let nsc = spec_nscount(s) as nat;
        assert(0 <= p < s.len());
        crate::cursor::lemma_skip_name_bounds(s, o);
        crate::packet::lemma_skip_records_lb(s, start, k);
        crate::packet::lemma_skip_records_update_after(s, start, k, p, v);
        crate::cursor::lemma_skip_name_update_after(s, o, p, v);
        crate::cursor::lemma_skip_rdata_update_elsewhere(s, ne, p, v);
        assert(spec_offset_answers(s) is Some);
        let oa = spec_offset_answers(s)->Some_0;
        crate::packet::lemma_skip_questions_lb(s, 12, qd);
        match it.section {
            Section::Answer => {
                assert(start == oa);
            },
            Section::NameServers => {
                crate::packet::lemma_skip_records_lb(s, oa, an);
            },
            Section::Additional => {
                let on = spec_offset_nameservers(s)->Some_0;
                crate::packet::lemma_skip_records_lb(s, oa, an);
                crate::packet::lemma_skip_records_lb(s, on, nsc);
            },
            Section::Question => {},
        }
        assert(p >= oa);
        crate::packet::lemma_skip_questions_update_after(s, 12, qd, p, v);
        assert(spec_qdcount(s2) == spec_qdcount(s));
        assert(spec_ancount(s2) == spec_ancount(s));
        assert(spec_nscount(s2) == spec_nscount(s));
        assert(spec_arcount(s2) == spec_arcount(s));
        assert(spec_offset_answers(s2) == spec_offset_answers(s));
        match it.section {
            Section::Answer => {
                crate::packet::lemma_walk_update_in_record(s, start, an, k, o, ne, nx, p, v);
                match pp.offset_nameservers {
                    Some(on_u) => {
                        crate::packet::lemma_skip_records_snoc(s, start as int, k, o);
                        crate::packet::lemma_skip_records_split(
                            s,
                            start,
                            (k + 1) as nat,
                            (an - k - 1) as nat,
                        );
                        crate::packet::lemma_skip_records_lb(s, nx, (an - k - 1) as nat);
                        crate::packet::lemma_skip_records_update_before(
                            s,
                            on_u as int,
                            nsc,
                            p,
                            v,
                        );
                    },
                    None => {},
                }
            },
            Section::NameServers => {
                crate::packet::lemma_skip_records_update_after(s, oa, an, p, v);
                crate::packet::lemma_walk_update_in_record(s, start, nsc, k, o, ne, nx, p, v);
            },
            Section::Additional => {
                let on = spec_offset_nameservers(s)->Some_0;
                crate::packet::lemma_skip_records_update_after(s, oa, an, p, v);
                crate::packet::lemma_skip_records_update_after(s, on, nsc, p, v);
            },
            Section::Question => {},
        }
    }

    /// Advances the cursor by one record.  Returns `Ok(true)` when it is now
    /// positioned on a record, `Ok(false)` when the section is exhausted,
    /// and propagates any cursor failure unchanged.  The new state and the
    /// result are exactly those of `advance_step` on the old state, so a
    /// whole traversal is a pure function of the buffer and the section.
    pub fn try_advance(&mut self, pp: &ParsedPacket) -> (r: Result<bool, DnsError>)
        requires
            old(self).wf(*pp),
        ensures
            final(self).wf(*pp),
            (*final(self), r) == RRIterator::advance_step(*pp, *old(self)),
            r matches Ok(positioned) ==> (positioned <==> final(self).current_offset is Some),
    {
        let remaining: u16;
        let off: usize;
        if !self.started {
            let count = match self.section {
                Section::Answer => pp.ancount(),
                Section::NameServers => pp.nscount(),
                Section::Additional => pp.arcount(),
                Section::Question => unreached(),
            };
            if count == 0 {
                self.started = true;
                self.current_offset = None;
                return Ok(false);
            }
            let start = match self.section {
                Section::Answer => pp.offset_answers,
                Section::NameServers => pp.offset_nameservers,
                Section::Additional => pp.offset_additional,
                Section::Question => unreached(),
            };
            match start {
                Some(o) => {
                    remaining = count;
                    off = o;
                },
                None => {
                    return Err(DnsError::InvalidPacket);
                },
            }
            proof {
                assert(spec_skip_records(pp.packet@, off as int, 0) == Some(off as int));
            }
        } else {
            if self.records_remaining == 0 {
                self.current_offset = None;
                return Ok(false);
            }
            remaining = self.records_remaining;
            off = self.next_offset;
            proof {
                let count = pp.spec_section_count(self.section);
                let start = pp.spec_section_start(self.section)->Some_0;
                let walked = (count - remaining) as nat;
                crate::packet::lemma_skip_records_snoc(
                    pp.packet@,
                    start as int,
                    (walked - 1) as nat,
                    self.current_offset->Some_0 as int,
                );
            }
        }
        let name_end = match skip_name(&pp.packet, off) {
            Ok(e) => e,
            Err(e) => {
                return Err(e);
            },
        };
        let next = match skip_rdata(&pp.packet, name_end) {
            Ok(e) => e,
            Err(e) => {
                return Err(e);
            },
        };
        proof {
            lemma_skip_name_bounds(pp.packet@, off as int);
        }
        self.started = true;
        self.records_remaining = remaining - 1;
        self.current_offset = Some(off);
        self.name_end_offset = name_end;
        self.next_offset = next;
        Ok(true)
    }
}

} // verus!

//! The caller-facing iterator over one record section: a section cursor
//! with the OPT-exclusion policy applied after every ordinary advance, so
//! that the additional section's stream never yields an OPT pseudo-record.

use vstd::prelude::*;

use crate::cursor::be16;
use crate::cursor::read_u16;
use crate::errors::DnsError;
use crate::packet::ParsedPacket;
use crate::packet::Section;
use crate::packet::spec_skip_records;
use crate::rr_iterator::RRIterator;
use crate::rr_iterator::RecordView;

verus! {

/// Numeric TYPE code of the OPT pseudo-record.
pub const TYPE_OPT: u16 = 41;

/// Whether the cursor stands on a record that the response iterator must
/// hide: an OPT record in the additional section.  Other sections pass
/// every record through unfiltered.
pub open spec fn is_filtered_opt(pp: ParsedPacket, it: RRIterator) -> bool {
    &&& it.current_offset is Some
    &&& it.section == Section::Additional
    &&& be16(pp.packet@, it.name_end_offset as int) == TYPE_OPT as int
}

/// One advance of the response iterator, as a mathematical state machine:
/// an ordinary cursor advance, repeated as long as it lands on an OPT
/// record of the additional section, so that such a record is never the
/// final position.  If the extra advance exhausts the section, the step
/// reports exhaustion rather than yielding the OPT record.
pub open spec fn response_step(pp: ParsedPacket, it: RRIterator) -> (RRIterator, Result<
    bool,
    DnsError,
>)
    decreases it.advance_measure(pp),
{
    let (it2, r) = RRIterator::advance_step(pp, it);
    if r == Ok::<bool, DnsError>(true) && is_filtered_opt(pp, it2) {
        response_step(pp, it2)
    } else {
        (it2, r)
    }
}

/// A successful response step leaves a started cursor whose remaining-record
/// count lies strictly below the old state's measure, so repeated advances
/// terminate.
pub proof fn lemma_response_step_measure(pp: ParsedPacket, it: RRIterator)
    ensures
        ({
            let (it2, r) = response_step(pp, it);
            r == Ok::<bool, DnsError>(true) ==> it2.started && (it2.records_remaining as int)
                < it.advance_measure(pp)
        }),
    decreases it.advance_measure(pp),
{
    let (it1, r1) = RRIterator::advance_step(pp, it);
    if r1 == Ok::<bool, DnsError>(true) && is_filtered_opt(pp, it1) {
        lemma_response_step_measure(pp, it1);
    }
}

/// The full traversal of one section from a cursor state: the sequence of
/// record offsets the response iterator yields until exhaustion, paired with
/// `Ok` when the traversal ends in exhaustion and with the cursor failure
/// when a record is malformed.
pub open spec fn spec_traverse(pp: ParsedPacket, it: RRIterator) -> (Seq<usize>, Result<
    (),
    DnsError,
>)
    decreases it.advance_measure(pp),
    via spec_traverse_decreases
{
    let (it2, r) = response_step(pp, it);
    match r {
        Ok(true) => {
            let rest = spec_traverse(pp, it2);
            (seq![it2.current_offset->Some_0] + rest.0, rest.1)
        },
        Ok(false) => (Seq::empty(), Ok(())),
        Err(e) => (Seq::empty(), Err(e)),
    }
}

#[via_fn]
proof fn spec_traverse_decreases(pp: ParsedPacket, it: RRIterator) {
    lemma_response_step_measure(pp, it);
}

/// Number of OPT records among the `n` records that start at `off`, walking
/// the same record spans the traversal walks.
pub open spec fn spec_opt_count(s: Seq<u8>, off: int, n: nat) -> nat
    decreases n,
{
    if n == 0 {
        0
    } else {
        match crate::cursor::spec_skip_name(s, off) {
            Some(name_end) => match crate::cursor::spec_skip_rdata(s, name_end) {
                Some(next) => (if be16(s, name_end) == TYPE_OPT as int {
                    1nat
                } else {
                    0nat
                }) + spec_opt_count(s, next, (n - 1) as nat),
                None => 0,
            },
            None => 0,
        }
    }
}

/// Iterator over one record section of one packet, yielding the section's
/// logical record stream: every record in order, except that OPT records
/// are excluded from the additional section.
pub struct ResponseIterator {
    pub rr_iterator: RRIterator,
}

/// The answer section's iterator.
pub type AnswerIterator = ResponseIterator;

/// The name-server (authority) section's iterator.
pub type NameServersIterator = ResponseIterator;

/// The additional section's iterator.
pub type AdditionalIterator = ResponseIterator;

impl ResponseIterator {
    /// The iterator's invariant against its packet.
    pub open spec fn wf(self, pp: ParsedPacket) -> bool {
        self.rr_iterator.wf(pp)
    }

    /// Whether the iterator is positioned on a record.
    pub open spec fn positioned(self) -> bool {
        self.rr_iterator.current_offset is Some
    }

    /// Wraps a section cursor.
    pub fn new(rr_iterator: RRIterator) -> (r: ResponseIterator)
        ensures
            r.rr_iterator == rr_iterator,
    {
        ResponseIterator { rr_iterator }
    }

    /// Byte offset of the current record's first name byte, while positioned.
    pub fn offset(&self) -> (r: Option<usize>)
        ensures
            r == self.rr_iterator.current_offset,
    {
        self.rr_iterator.current_offset
    }

    /// TYPE field of the current record.
    pub fn rr_type(&self, pp: &ParsedPacket) -> (r: u16)
        requires
            self.wf(*pp),
            self.positioned(),
        ensures
            r as int == be16(pp.packet@, self.rr_iterator.name_end_offset as int),
    {
        read_u16(&pp.packet, self.rr_iterator.name_end_offset)
    }

    /// Read-only window onto the current record, recomputed from the
    /// cursor's position.  Valid only until the next advance.
    pub fn raw(&self) -> (r: RecordView)
        requires
            self.positioned(),
        ensures
            r.offset == self.rr_iterator.current_offset->Some_0,
            r.name_end_offset == self.rr_iterator.name_end_offset,
            r.next_offset == self.rr_iterator.next_offset,
            forall|pp: ParsedPacket| self.wf(pp) ==> #[trigger] r.wf(pp),
    {
        let offset = match self.rr_iterator.current_offset {
            Some(o) => o,
            None => unreached(),
        };
        RecordView {
            offset,
            name_end_offset: self.rr_iterator.name_end_offset,
            next_offset: self.rr_iterator.next_offset,
        }
    }

    /// Overwrites the 2-byte TYPE field of the current record in place.
    /// Only the two TYPE bytes change, and both well-formedness invariants
    /// survive the write.
    pub fn set_rr_type(&self, pp: &mut ParsedPacket, rr_type: u16)
        requires
            self.wf(*old(pp)),
            self.positioned(),
        ensures
            final(pp).wf(),
            self.wf(*final(pp)),
            final(pp).packet@.len() == old(pp).packet@.len(),
            final(pp).offset_answers == old(pp).offset_answers,
            final(pp).offset_nameservers == old(pp).offset_nameservers,
            final(pp).offset_additional == old(pp).offset_additional,
            be16(final(pp).packet@, self.rr_iterator.name_end_offset as int) == rr_type as int,
            forall|i: int|
                0 <= i < old(pp).packet@.len() && !(self.rr_iterator.name_end_offset <= i
                    < self.rr_iterator.name_end_offset + 2) ==> final(pp).packet@[i] == old(
                    pp,
                ).packet@[i],
    {
        let ne = self.rr_iterator.name_end_offset;
        proof {
            vstd::std_specs::vec::axiom_spec_len(&pp.packet);
            assert((((rr_type >> 8u16) as u8) as u16) * 256 + ((rr_type as u8) as u16) == rr_type)
                by (bit_vector);
        }
        let b0: u8 = #[verifier::truncate] ((rr_type >> 8) as u8);
        let b1: u8 = #[verifier::truncate] (rr_type as u8);
        let ghost pp0 = *pp;
        pp.packet[ne] = b0;
        proof {
            RRIterator::lemma_record_write_preserves_wf(pp0, *pp, self.rr_iterator, ne as int, b0);
        }
        let ghost pp1 = *pp;
        pp.packet[ne + 1] = b1;
        proof {
            RRIterator::lemma_record_write_preserves_wf(
                pp1,
                *pp,
                self.rr_iterator,
                ne + 1,
                b1,
            );
        }
    }

    /// Overwrites the 2-byte CLASS field of the current record in place.
    pub fn set_rr_class(&self, pp: &mut ParsedPacket, rr_class: u16)
        requires
            self.wf(*old(pp)),
            self.positioned(),
        ensures
            final(pp).wf(),
            self.wf(*final(pp)),
            final(pp).packet@.len() == old(pp).packet@.len(),
            final(pp).offset_answers == old(pp).offset_answers,
            final(pp).offset_nameservers == old(pp).offset_nameservers,
            final(pp).offset_additional == old(pp).offset_additional,
            be16(final(pp).packet@, self.rr_iterator.name_end_offset + 2) == rr_class as int,
            forall|i: int|
                0 <= i < old(pp).packet@.len() && !(self.rr_iterator.name_end_offset + 2 <= i
                    < self.rr_iterator.name_end_offset + 4) ==> final(pp).packet@[i] == old(
                    pp,
                ).packet@[i],
    {
        let ne = self.rr_iterator.name_end_offset;
        proof {
            vstd::std_specs::vec::axiom_spec_len(&pp.packet);
            assert((((rr_class >> 8u16) as u8) as u16) * 256 + ((rr_class as u8) as u16)
                == rr_class) by (bit_vector);
        }
        let b0: u8 = #[verifier::truncate] ((rr_class >> 8) as u8);
        let b1: u8 = #[verifier::truncate] (rr_class as u8);
        let ghost pp0 = *pp;
        pp.packet[ne + 2] = b0;
        proof {
            RRIterator::lemma_record_write_preserves_wf(
                pp0,
                *pp,
                self.rr_iterator,
                ne + 2,
                b0,
            );
        }
        let ghost pp1 = *pp;
        pp.packet[ne + 3] = b1;
        proof {
            RRIterator::lemma_record_write_preserves_wf(
                pp1,
                *pp,
                self.rr_iterator,
                ne + 3,
                b1,
            );
        }
    }

    /// Overwrites the 4-byte TTL field of the current record in place.
    pub fn set_rr_ttl(&self, pp: &mut ParsedPacket, ttl: u32)
        requires
            self.wf(*old(pp)),
            self.positioned(),
        ensures
            final(pp).wf(),
            self.wf(*final(pp)),
            final(pp).packet@.len() == old(pp).packet@.len(),
            final(pp).offset_answers == old(pp).offset_answers,
            final(pp).offset_nameservers == old(pp).offset_nameservers,
            final(pp).offset_additional == old(pp).offset_additional,
            crate::cursor::be32(final(pp).packet@, self.rr_iterator.name_end_offset + 4) == ttl
                as int,
            forall|i: int|
                0 <= i < old(pp).packet@.len() && !(self.rr_iterator.name_end_offset + 4 <= i
                    < self.rr_iterator.name_end_offset + 8) ==> final(pp).packet@[i] == old(
                    pp,
                ).packet@[i],
    {
        let ne = self.rr_iterator.name_end_offset;
        proof {
            vstd::std_specs::vec::axiom_spec_len(&pp.packet);
            assert((((ttl >> 24u32) as u8) as u32) * 0x1000000 + (((ttl >> 16u32) as u8) as u32)
                * 0x10000 + (((ttl >> 8u32) as u8) as u32) * 256 + ((ttl as u8) as u32) == ttl)
                by (bit_vector);
        }
        let b0: u8 = #[verifier::truncate] ((ttl >> 24) as u8);
        let b1: u8 = #[verifier::truncate] ((ttl >> 16) as u8);
        let b2: u8 = #[verifier::truncate] ((ttl >> 8) as u8);
        let b3: u8 = #[verifier::truncate] (ttl as u8);
        let ghost pp0 = *pp;
        pp.packet[ne + 4] = b0;
        proof {
            RRIterator::lemma_record_write_preserves_wf(
                pp0,
                *pp,
                self.rr_iterator,
                ne + 4,
                b0,
            );
        }
        let ghost pp1 = *pp;
        pp.packet[ne + 5] = b1;
        proof {
            RRIterator::lemma_record_write_preserves_wf(
                pp1,
                *pp,
                self.rr_iterator,
                ne + 5,
                b1,
            );
        }
        let ghost pp2 = *pp;
        pp.packet[ne + 6] = b2;
        proof {
            RRIterator::lemma_record_write_preserves_wf(
                pp2,
                *pp,
                self.rr_iterator,
                ne + 6,
                b2,
            );
        }
        let ghost pp3 = *pp;
        pp.packet[ne + 7] = b3;
        proof {
            RRIterator::lemma_record_write_preserves_wf(
                pp3,
                *pp,
                self.rr_iterator,
                ne + 7,
                b3,
            );
        }
    }

    /// Overwrites one RDATA byte of the current record in place.  Fails with
    /// `InternalError`, changing nothing, exactly when `i` lies beyond the
    /// record's RDATA span — the span is fixed, and RDLENGTH itself can
    /// never be rewritten through a view.
    pub fn set_rdata_byte(&self, pp: &mut ParsedPacket, i: usize, v: u8) -> (r: Result<
        (),
        DnsError,
    >)
        requires
            self.wf(*old(pp)),
            self.positioned(),
        ensures
            final(pp).wf(),
            self.wf(*final(pp)),
            final(pp).offset_answers == old(pp).offset_answers,
            final(pp).offset_nameservers == old(pp).offset_nameservers,
            final(pp).offset_additional == old(pp).offset_additional,
            ({
                let ne = self.rr_iterator.name_end_offset;
                let nx = self.rr_iterator.next_offset;
                if i < nx - (ne + 10) {
                    r == Ok::<(), DnsError>(()) && final(pp).packet@ == old(pp).packet@.update(
                        ne + 10 + i,
                        v,
                    )
                } else {
                    r == Err::<(), DnsError>(DnsError::InternalError) && *final(pp) == *old(pp)
                }
            }),
    {
        let ne = self.rr_iterator.name_end_offset;
        let nx = self.rr_iterator.next_offset;
        proof {
            vstd::std_specs::vec::axiom_spec_len(&pp.packet);
        }
        let rdlen = nx - (ne + 10);
        if i >= rdlen {
            return Err(DnsError::InternalError);
        }
        let ghost pp0 = *pp;
        pp.packet[ne + 10 + i] = v;
        proof {
            RRIterator::lemma_record_write_preserves_wf(
                pp0,
                *pp,
                self.rr_iterator,
                ne + 10 + i,
                v,
            );
        }
        Ok(())
    }

    /// Advances to the next record of the logical stream.  Returns
    /// `Ok(true)` when positioned on a record (never an OPT record of the
    /// additional section), `Ok(false)` when the section is exhausted, and
    /// propagates a cursor failure with the state unchanged.  The new state
    /// and the result are exactly those of `response_step` on the old state,
    /// so a traversal over an unmodified buffer is reproducible.
    #[verifier::loop_isolation(false)]
    pub fn try_advance(&mut self, pp: &ParsedPacket) -> (r: Result<bool, DnsError>)
        requires
            old(self).wf(*pp),
        ensures
            final(self).wf(*pp),
            (final(self).rr_iterator, r) == response_step(*pp, old(self).rr_iterator),
            r matches Ok(positioned) ==> (positioned <==> final(self).positioned()),
            r == Ok::<bool, DnsError>(true) ==> !is_filtered_opt(*pp, final(self).rr_iterator),
    {
        let ok = match self.rr_iterator.try_advance(pp) {
            Ok(b) => b,
            Err(e) => {
                return Err(e);
            },
        };
        if !ok {
            return Ok(false);
        }
        loop
            invariant
                self.rr_iterator.wf(*pp),
                self.rr_iterator.current_offset is Some,
                response_step(*pp, old(self).rr_iterator) == (
                if is_filtered_opt(*pp, self.rr_iterator) {
                    response_step(*pp, self.rr_iterator)
                } else {
                    (self.rr_iterator, Ok::<bool, DnsError>(true))
                }),
            decreases self.rr_iterator.records_remaining,
        {
            let is_opt = if self.rr_iterator.section == Section::Additional {
                self.rr_type(pp) == TYPE_OPT
            } else {
                false
            };
            if !is_opt {
                return Ok(true);
            }
            let ok2 = match self.rr_iterator.try_advance(pp) {
                Ok(b) => b,
                Err(e) => {
                    return Err(e);
                },
            };
            if !ok2 {
                return Ok(false);
            }
        }
    }
}

/// Runs a full traversal of one section from a fresh cursor and collects the
/// yielded record offsets.  The result is a pure function of the buffer and
/// the section, so re-running it on the same unmodified packet returns the
/// identical sequence.
#[verifier::loop_isolation(false)]
pub fn record_offsets(pp: &ParsedPacket, section: Section) -> (r: Result<Vec<usize>, DnsError>)
    requires
        pp.wf(),
        section != Section::Question,
    ensures
        ({
            let t = spec_traverse(*pp, RRIterator::fresh(section));
            match r {
                Ok(v) => v@ == t.0 && t.1 == Ok::<(), DnsError>(()),
                Err(e) => t.1 == Err::<(), DnsError>(e),
            }
        }),
{
    let mut it = ResponseIterator::new(RRIterator::new(section));
    let mut offs: Vec<usize> = Vec::new();
    let ghost t0 = spec_traverse(*pp, RRIterator::fresh(section));
    loop
        invariant
            it.wf(*pp),
            t0.0 == offs@ + spec_traverse(*pp, it.rr_iterator).0,
            t0.1 == spec_traverse(*pp, it.rr_iterator).1,
        decreases it.rr_iterator.advance_measure(*pp),
    {
        let ghost prev = it.rr_iterator;
        proof {
            lemma_response_step_measure(*pp, prev);
        }
        match it.try_advance(pp) {
            Err(e) => {
                proof {
                    assert(spec_traverse(*pp, prev).1 == Err::<(), DnsError>(e));
                }
                return Err(e);
            },
            Ok(false) => {
                proof {
                    assert(offs@ + spec_traverse(*pp, prev).0 =~= offs@);
                }
                return Ok(offs);
            },
            Ok(true) => {
                let off = match it.offset() {
                    Some(o) => o,
                    None => unreached(),
                };
                proof {
                    let rest = spec_traverse(*pp, it.rr_iterator);
                    assert(spec_traverse(*pp, prev).0 == seq![off] + rest.0);
                    assert(offs@ + (seq![off] + rest.0) =~= (offs@ + seq![off]) + rest.0);
                    assert(offs@ + seq![off] =~= offs@.push(off));
                }
                offs.push(off);
            },
        }
    }
}

/// Law: a full traversal of a structurally sound section visits exactly the
/// section's declared record count, minus the OPT records that the policy
/// excludes from the additional section.
pub proof fn lemma_exhaustive_visit_count(pp: ParsedPacket, section: Section)
    requires
        pp.wf(),
        section != Section::Question,
        pp.spec_section_count(section) == 0 || (pp.spec_section_start(section) matches Some(start)
            && spec_skip_records(
            pp.packet@,
            start as int,
            pp.spec_section_count(section) as nat,
        ) is Some),
    ensures
        ({
            let t = spec_traverse(pp, RRIterator::fresh(section));
            let count = pp.spec_section_count(section);
            let start = pp.spec_section_start(section)->Some_0;
            &&& t.1 == Ok::<(), DnsError>(())
            &&& t.0.len() == count - (if section == Section::Additional {
                spec_opt_count(pp.packet@, start as int, count as nat) as int
            } else {
                0
            })
        }),
{
    let s = pp.packet@;
    let it = RRIterator::fresh(section);
    let count = pp.spec_section_count(section);
    if count == 0 {
        assert(spec_traverse(pp, it).0 =~= Seq::<usize>::empty());
    } else {
        let start = pp.spec_section_start(section)->Some_0;
        let primed = RRIterator {
            section,
            started: true,
            records_remaining: count as u16,
            current_offset: None,
            name_end_offset: 0,
            next_offset: start,
        };
        assert(0 <= count < 65536);
        assert(RRIterator::advance_step(pp, it) == RRIterator::advance_step(pp, primed));
        assert(response_step(pp, it) == response_step(pp, primed));
        assert(spec_traverse(pp, it) == spec_traverse(pp, primed));
        lemma_traverse_count_from(pp, primed);
    }
}

/// A traversal that still has `records_remaining` walkable records ahead of
/// it yields them all, except the OPT records of the additional section.
proof fn lemma_traverse_count_from(pp: ParsedPacket, it: RRIterator)
    requires
        pp.wf(),
        it.section != Section::Question,
        it.started,
        spec_skip_records(pp.packet@, it.next_offset as int, it.records_remaining as nat) is Some,
    ensures
        ({
            let t = spec_traverse(pp, it);
            &&& t.1 == Ok::<(), DnsError>(())
            &&& t.0.len() == it.records_remaining - (if it.section == Section::Additional {
                spec_opt_count(
                    pp.packet@,
                    it.next_offset as int,
                    it.records_remaining as nat,
                ) as int
            } else {
                0
            })
        }),
    decreases it.records_remaining,
{
    let s = pp.packet@;
    let rr = it.records_remaining;
    let (it1, r1) = RRIterator::advance_step(pp, it);
    if rr == 0 {
        assert(spec_traverse(pp, it).0 =~= Seq::<usize>::empty());
    } else {
        assert(crate::cursor::spec_skip_record(s, it.next_offset as int) is Some);
        let name_end = crate::cursor::spec_skip_name(s, it.next_offset as int)->Some_0;
        let next = crate::cursor::spec_skip_rdata(s, name_end)->Some_0;
        vstd::std_specs::vec::axiom_spec_len(&pp.packet);
        crate::cursor::lemma_skip_name_bounds(s, it.next_offset as int);
        assert(r1 == Ok::<bool, DnsError>(true));
        assert(it1.next_offset as int == next);
        assert(spec_skip_records(s, next, (rr - 1) as nat) is Some);
        lemma_traverse_count_from(pp, it1);
        if is_filtered_opt(pp, it1) {
            assert(response_step(pp, it) == response_step(pp, it1));
            assert(spec_traverse(pp, it) == spec_traverse(pp, it1));
        }
    }
}

/// Law: a section whose declared count is zero yields no records, whether or
/// not its start offset could even be derived — the cursor never resolves a
/// start offset for an empty section.
pub proof fn lemma_empty_section_yields_nothing(pp: ParsedPacket, section: Section)
    requires
        pp.wf(),
        section != Section::Question,
        pp.spec_section_count(section) == 0,
    ensures
        spec_traverse(pp, RRIterator::fresh(section)) == (
            Seq::<usize>::empty(),
            Ok::<(), DnsError>(()),
        ),
{
    assert(spec_traverse(pp, RRIterator::fresh(section)).0 =~= Seq::<usize>::empty());
}

/// Law: traversal is reproducible.  It depends only on the buffer's bytes
/// and the cursor's state: two well-formed packet contexts over the same
/// unmodified bytes step identically and yield the identical sequence of
/// offsets with the identical outcome, so re-running a full traversal from a
/// fresh cursor repeats it exactly.
pub proof fn lemma_traversal_repeatable(pp1: ParsedPacket, pp2: ParsedPacket, it: RRIterator)
    requires
        pp1.wf(),
        pp2.wf(),
        pp1.packet@ == pp2.packet@,
    ensures
        response_step(pp1, it) == response_step(pp2, it),
        spec_traverse(pp1, it) == spec_traverse(pp2, it),
    decreases it.advance_measure(pp1),
{
    assert(pp1.offset_answers == pp2.offset_answers);
    assert(pp1.offset_nameservers == pp2.offset_nameservers);
    assert(pp1.offset_additional == pp2.offset_additional);
    assert(RRIterator::advance_step(pp1, it) == RRIterator::advance_step(pp2, it));
    let (it1, r1) = RRIterator::advance_step(pp1, it);
    if r1 == Ok::<bool, DnsError>(true) && is_filtered_opt(pp1, it1) {
        lemma_traversal_repeatable(pp1, pp2, it1);
    }
    let (it2, r) = response_step(pp1, it);
    if r == Ok::<bool, DnsError>(true) {
        lemma_response_step_measure(pp1, it);
        lemma_traversal_repeatable(pp1, pp2, it2);
    }
}

/// Law: a successful advance never moves backwards — the new record begins
/// no earlier than the old one — and the new record's span lies within the
/// buffer.
pub proof fn lemma_advance_offsets_monotonic(pp: ParsedPacket, it: RRIterator)
    requires
        it.wf(pp),
    ensures
        ({
            let (it2, r) = response_step(pp, it);
            r == Ok::<bool, DnsError>(true) ==> {
                &&& it2.current_offset is Some
                &&& it.current_offset is Some ==> it.current_offset->Some_0
                    <= it2.current_offset->Some_0
                &&& it2.current_offset->Some_0 <= it2.name_end_offset <= it2.next_offset
                    <= pp.packet@.len()
            }
        }),
    decreases it.advance_measure(pp),
{
    let (it1, r1) = RRIterator::advance_step(pp, it);
    RRIterator::lemma_advance_step_wf(pp, it);
    if r1 == Ok::<bool, DnsError>(true) && is_filtered_opt(pp, it1) {
        lemma_advance_offsets_monotonic(pp, it1);
    }
}

} // verus!

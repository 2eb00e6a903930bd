use dnscursor::cursor::skip_name;
use dnscursor::cursor::skip_rdata;
use dnscursor::errors::DnsError;
use dnscursor::packet::ParsedPacket;
use dnscursor::packet::Section;
use dnscursor::response_iterator::record_offsets;
use dnscursor::response_iterator::ResponseIterator;
use dnscursor::response_iterator::TYPE_OPT;
use dnscursor::rr_iterator::RRIterator;

fn push_u16(buf: &mut Vec<u8>, x: u16) {
    buf.push((x >> 8) as u8);
    buf.push(x as u8);
}

fn push_u32(buf: &mut Vec<u8>, x: u32) {
    buf.push((x >> 24) as u8);
    buf.push((x >> 16) as u8);
    buf.push((x >> 8) as u8);
    buf.push(x as u8);
}

fn header(qd: u16, an: u16, ns: u16, ar: u16) -> Vec<u8> {
    let mut buf = Vec::new();
    push_u16(&mut buf, 0x1234);
    push_u16(&mut buf, 0x8180);
    push_u16(&mut buf, qd);
    push_u16(&mut buf, an);
    push_u16(&mut buf, ns);
    push_u16(&mut buf, ar);
    buf
}

/// One question entry with the name "a".
fn push_question(buf: &mut Vec<u8>) {
    buf.extend_from_slice(&[1, b'a', 0]);
    push_u16(buf, 1);
    push_u16(buf, 1);
}

/// One record with the name "a" and the given fixed fields and payload.
fn push_record(buf: &mut Vec<u8>, rr_type: u16, rr_class: u16, ttl: u32, rdata: &[u8]) {
    buf.extend_from_slice(&[1, b'a', 0]);
    push_u16(buf, rr_type);
    push_u16(buf, rr_class);
    push_u32(buf, ttl);
    push_u16(buf, rdata.len() as u16);
    buf.extend_from_slice(rdata);
}

fn advance(it: &mut ResponseIterator, pp: &ParsedPacket) -> Result<bool, DnsError> {
    it.try_advance(pp)
}

#[test]
fn answer_iteration_visits_declared_count() {
    let mut buf = header(1, 2, 0, 0);
    push_question(&mut buf);
    push_record(&mut buf, 1, 1, 60, &[10, 0, 0, 1]);
    push_record(&mut buf, 1, 1, 60, &[10, 0, 0, 2]);
    let pp = ParsedPacket::new(buf).unwrap();
    let mut it = ResponseIterator::new(RRIterator::new(Section::Answer));
    assert_eq!(advance(&mut it, &pp), Ok(true));
    assert_eq!(it.offset(), Some(19));
    assert_eq!(advance(&mut it, &pp), Ok(true));
    assert_eq!(it.offset(), Some(36));
    assert_eq!(advance(&mut it, &pp), Ok(false));
}

#[test]
fn traversal_is_repeatable() {
    let mut buf = header(1, 2, 1, 0);
    push_question(&mut buf);
    push_record(&mut buf, 1, 1, 60, &[10, 0, 0, 1]);
    push_record(&mut buf, 16, 1, 60, &[3, b'f', b'o', b'o']);
    push_record(&mut buf, 2, 1, 120, &[1, b'b', 0]);
    let pp = ParsedPacket::new(buf).unwrap();
    let first = record_offsets(&pp, Section::Answer).unwrap();
    let second = record_offsets(&pp, Section::Answer).unwrap();
    assert_eq!(first, second);
    assert_eq!(first.len(), 2);
    let ns_first = record_offsets(&pp, Section::NameServers).unwrap();
    let ns_second = record_offsets(&pp, Section::NameServers).unwrap();
    assert_eq!(ns_first, ns_second);
    assert_eq!(ns_first.len(), 1);
}

#[test]
fn offsets_are_monotonic_and_in_bounds() {
    let mut buf = header(1, 3, 0, 0);
    push_question(&mut buf);
    push_record(&mut buf, 1, 1, 60, &[10, 0, 0, 1]);
    push_record(&mut buf, 1, 1, 60, &[]);
    push_record(&mut buf, 1, 1, 60, &[1, 2, 3, 4, 5, 6, 7, 8]);
    let len = buf.len();
    let pp = ParsedPacket::new(buf).unwrap();
    let offs = record_offsets(&pp, Section::Answer).unwrap();
    assert_eq!(offs.len(), 3);
    for w in offs.windows(2) {
        assert!(w[0] <= w[1]);
    }
    for o in &offs {
        assert!(*o < len);
    }
}

#[test]
fn ancount_zero_yields_no_record() {
    let mut buf = header(1, 0, 0, 0);
    push_question(&mut buf);
    let pp = ParsedPacket::new(buf).unwrap();
    let mut it = ResponseIterator::new(RRIterator::new(Section::Answer));
    assert_eq!(advance(&mut it, &pp), Ok(false));
    assert_eq!(it.offset(), None);
}

#[test]
fn empty_sections_need_no_start_offset() {
    // A bare 12-byte header: every count is zero and nothing follows it.
    let buf = header(0, 0, 0, 0);
    let pp = ParsedPacket::new(buf).unwrap();
    assert_eq!(record_offsets(&pp, Section::Answer), Ok(vec![]));
    assert_eq!(record_offsets(&pp, Section::NameServers), Ok(vec![]));
    assert_eq!(record_offsets(&pp, Section::Additional), Ok(vec![]));
}

#[test]
fn reserved_label_byte_is_invalid_name() {
    // 64 is neither a plain label length (1-63) nor a pointer (192-255).
    let buf = vec![64, 0, 0];
    assert_eq!(skip_name(&buf, 0), Err(DnsError::InvalidName));
    let buf191 = vec![191, 0, 0];
    assert_eq!(skip_name(&buf191, 0), Err(DnsError::InvalidName));
}

#[test]
fn name_past_buffer_end_is_invalid() {
    // The label promises 5 bytes but only 2 remain.
    let buf = vec![5, b'a', b'b'];
    assert_eq!(skip_name(&buf, 0), Err(DnsError::InvalidName));
    // A pointer needs 2 bytes but only 1 remains.
    let ptr = vec![0, 192];
    assert_eq!(skip_name(&ptr, 1), Err(DnsError::InvalidName));
    // A name that runs to the end without a terminator.
    let unterminated = vec![1, b'a'];
    assert_eq!(skip_name(&unterminated, 0), Err(DnsError::InvalidName));
    // Starting at or past the end is the smaller-packet failure.
    assert_eq!(skip_name(&buf, 3), Err(DnsError::PacketTooSmall));
    assert_eq!(skip_name(&buf, 7), Err(DnsError::PacketTooSmall));
}

#[test]
fn zero_label_terminates_name() {
    let buf = vec![3, b'w', b'w', b'w', 0, 9, 9];
    assert_eq!(skip_name(&buf, 0), Ok(5));
    let root = vec![0];
    assert_eq!(skip_name(&root, 0), Ok(1));
}

#[test]
fn pointer_as_sole_label_ends_after_two_bytes() {
    // The pointer target is irrelevant: only the two pointer bytes count.
    let buf = vec![0, 0, 192, 12, 9, 9];
    assert_eq!(skip_name(&buf, 2), Ok(4));
    let far = vec![255, 255, 9];
    assert_eq!(skip_name(&far, 0), Ok(2));
}

#[test]
fn rdlength_overrun_is_invalid_packet() {
    // 10 fixed bytes present, but RDLENGTH claims 200 bytes of RDATA.
    let mut buf = vec![0u8; 8];
    push_u16(&mut buf, 200);
    buf.push(0);
    assert_eq!(skip_rdata(&buf, 0), Err(DnsError::InvalidPacket));
}

#[test]
fn rdata_needs_ten_fixed_bytes() {
    let buf = vec![0u8; 9];
    assert_eq!(skip_rdata(&buf, 0), Err(DnsError::PacketTooSmall));
    let mut ok = vec![0u8; 10];
    ok[9] = 0;
    assert_eq!(skip_rdata(&ok, 0), Ok(10));
    let mut with_rdata = vec![0u8; 13];
    with_rdata[9] = 3;
    assert_eq!(skip_rdata(&with_rdata, 0), Ok(13));
}

#[test]
fn short_buffer_is_packet_too_small() {
    assert_eq!(
        ParsedPacket::new(vec![0; 11]).err(),
        Some(DnsError::PacketTooSmall)
    );
    assert!(ParsedPacket::new(vec![0; 12]).is_ok());
}

#[test]
fn malformed_answer_propagates_error() {
    // ANCOUNT says one record, but its RDLENGTH runs past the buffer.
    let mut buf = header(0, 1, 0, 0);
    buf.extend_from_slice(&[1, b'a', 0]);
    push_u16(&mut buf, 1);
    push_u16(&mut buf, 1);
    push_u32(&mut buf, 60);
    push_u16(&mut buf, 50);
    buf.push(0);
    let pp = ParsedPacket::new(buf).unwrap();
    let mut it = ResponseIterator::new(RRIterator::new(Section::Answer));
    assert_eq!(advance(&mut it, &pp), Err(DnsError::InvalidPacket));
}

#[test]
fn malformed_name_propagates_error() {
    // ANCOUNT says one record, but its name uses a reserved length byte.
    let mut buf = header(0, 1, 0, 0);
    buf.extend_from_slice(&[77, 0, 0]);
    let pp = ParsedPacket::new(buf).unwrap();
    let mut it = ResponseIterator::new(RRIterator::new(Section::Answer));
    assert_eq!(advance(&mut it, &pp), Err(DnsError::InvalidName));
}

#[test]
fn underivable_section_start_is_invalid_packet() {
    // NSCOUNT is one, but the answer section cannot be walked, so the
    // name-server section's start offset cannot be derived.
    let mut buf = header(0, 1, 1, 0);
    buf.extend_from_slice(&[77, 0, 0]);
    let pp = ParsedPacket::new(buf).unwrap();
    let mut it = ResponseIterator::new(RRIterator::new(Section::NameServers));
    assert_eq!(advance(&mut it, &pp), Err(DnsError::InvalidPacket));
}

#[test]
fn opt_record_is_skipped_in_additional() {
    let mut buf = header(0, 0, 0, 2);
    let opt_offset = buf.len();
    push_record(&mut buf, TYPE_OPT, 4096, 0, &[]);
    let plain_offset = buf.len();
    push_record(&mut buf, 1, 1, 60, &[10, 0, 0, 9]);
    let pp = ParsedPacket::new(buf).unwrap();
    let mut it = ResponseIterator::new(RRIterator::new(Section::Additional));
    assert_eq!(advance(&mut it, &pp), Ok(true));
    assert_eq!(it.offset(), Some(plain_offset));
    assert_ne!(it.rr_type(&pp), TYPE_OPT);
    assert_eq!(advance(&mut it, &pp), Ok(false));
    assert_eq!(record_offsets(&pp, Section::Additional), Ok(vec![plain_offset]));
    assert_ne!(it.offset(), Some(opt_offset));
}

#[test]
fn lone_opt_record_yields_nothing() {
    let mut buf = header(0, 0, 0, 1);
    push_record(&mut buf, TYPE_OPT, 4096, 0, &[]);
    let pp = ParsedPacket::new(buf).unwrap();
    let mut it = ResponseIterator::new(RRIterator::new(Section::Additional));
    assert_eq!(advance(&mut it, &pp), Ok(false));
    assert_eq!(record_offsets(&pp, Section::Additional), Ok(vec![]));
}

#[test]
fn consecutive_opt_records_are_all_skipped() {
    let mut buf = header(0, 0, 0, 3);
    push_record(&mut buf, TYPE_OPT, 4096, 0, &[]);
    push_record(&mut buf, TYPE_OPT, 4096, 0, &[]);
    let plain_offset = buf.len();
    push_record(&mut buf, 1, 1, 60, &[10, 0, 0, 9]);
    let pp = ParsedPacket::new(buf).unwrap();
    assert_eq!(record_offsets(&pp, Section::Additional), Ok(vec![plain_offset]));
}

#[test]
fn opt_passes_through_other_sections() {
    // The exclusion policy applies to the additional section only.
    let mut buf = header(0, 1, 0, 0);
    let off = buf.len();
    push_record(&mut buf, TYPE_OPT, 4096, 0, &[]);
    let pp = ParsedPacket::new(buf).unwrap();
    assert_eq!(record_offsets(&pp, Section::Answer), Ok(vec![off]));
}

#[test]
fn field_accessors_read_exact_values() {
    let mut buf = header(1, 1, 0, 0);
    push_question(&mut buf);
    push_record(&mut buf, 5, 3, 0x01020304, &[9, 8, 7]);
    let pp = ParsedPacket::new(buf).unwrap();
    let mut it = ResponseIterator::new(RRIterator::new(Section::Answer));
    assert_eq!(advance(&mut it, &pp), Ok(true));
    let view = it.raw();
    assert_eq!(view.rr_type(&pp), 5);
    assert_eq!(view.rr_class(&pp), 3);
    assert_eq!(view.rr_ttl(&pp), 0x01020304);
    assert_eq!(view.rr_rdlength(&pp), 3);
    assert_eq!(view.rdata_len(&pp), 3);
    assert_eq!(view.rdata_offset(&pp), view.name_end_offset + 10);
    assert_eq!(view.rdata_byte(&pp, 0), 9);
    assert_eq!(view.rdata_byte(&pp, 1), 8);
    assert_eq!(view.rdata_byte(&pp, 2), 7);
    assert_eq!(view.offset, 19);
    assert_eq!(view.name_end_offset, 22);
    assert_eq!(view.next_offset, 35);
}

#[test]
fn mutators_rewrite_fields_in_place() {
    let mut buf = header(1, 2, 0, 0);
    push_question(&mut buf);
    push_record(&mut buf, 1, 1, 60, &[10, 0, 0, 1]);
    push_record(&mut buf, 1, 1, 60, &[10, 0, 0, 2]);
    let mut pp = ParsedPacket::new(buf).unwrap();
    let before = record_offsets(&pp, Section::Answer).unwrap();
    let mut it = ResponseIterator::new(RRIterator::new(Section::Answer));
    assert_eq!(advance(&mut it, &pp), Ok(true));
    it.set_rr_type(&mut pp, 28);
    it.set_rr_class(&mut pp, 254);
    it.set_rr_ttl(&mut pp, 0xDEADBEEF);
    assert_eq!(it.set_rdata_byte(&mut pp, 0, 192), Ok(()));
    assert_eq!(it.set_rdata_byte(&mut pp, 3, 77), Ok(()));
    let view = it.raw();
    assert_eq!(view.rr_type(&pp), 28);
    assert_eq!(view.rr_class(&pp), 254);
    assert_eq!(view.rr_ttl(&pp), 0xDEADBEEF);
    assert_eq!(view.rdata_byte(&pp, 0), 192);
    assert_eq!(view.rdata_byte(&pp, 3), 77);
    // The record structure is untouched: the same offsets walk the packet.
    let after = record_offsets(&pp, Section::Answer).unwrap();
    assert_eq!(before, after);
    // The second record keeps iterating cleanly after the rewrite.
    assert_eq!(advance(&mut it, &pp), Ok(true));
    assert_eq!(it.raw().rr_ttl(&pp), 60);
    assert_eq!(advance(&mut it, &pp), Ok(false));
}

#[test]
fn rdata_write_beyond_span_is_internal_error() {
    let mut buf = header(0, 1, 0, 0);
    push_record(&mut buf, 1, 1, 60, &[10, 0, 0, 1]);
    let mut pp = ParsedPacket::new(buf).unwrap();
    let mut it = ResponseIterator::new(RRIterator::new(Section::Answer));
    assert_eq!(advance(&mut it, &pp), Ok(true));
    assert_eq!(
        it.set_rdata_byte(&mut pp, 4, 0),
        Err(DnsError::InternalError)
    );
    // Nothing changed: the payload still reads back as written.
    let view = it.raw();
    assert_eq!(view.rdata_byte(&pp, 3), 1);
    assert_eq!(view.rr_rdlength(&pp), 4);
}

#[test]
fn compressed_name_inside_record_is_skipped() {
    // The record's name is one label followed by a compression pointer back
    // into the question; the cursor must end the name right after the
    // pointer without following it.
    let mut buf = header(1, 1, 0, 0);
    push_question(&mut buf);
    let record_offset = buf.len();
    buf.extend_from_slice(&[3, b'f', b't', b'p', 192, 12]);
    push_u16(&mut buf, 1);
    push_u16(&mut buf, 1);
    push_u32(&mut buf, 60);
    push_u16(&mut buf, 1);
    buf.push(0xFF);
    let pp = ParsedPacket::new(buf).unwrap();
    let mut it = ResponseIterator::new(RRIterator::new(Section::Answer));
    assert_eq!(advance(&mut it, &pp), Ok(true));
    let view = it.raw();
    assert_eq!(view.offset, record_offset);
    assert_eq!(view.name_end_offset, record_offset + 6);
    assert_eq!(view.rr_rdlength(&pp), 1);
    assert_eq!(view.rdata_byte(&pp, 0), 0xFF);
    assert_eq!(advance(&mut it, &pp), Ok(false));
}

#[test]
fn counts_read_from_header() {
    let mut buf = header(1, 2, 3, 4);
    push_question(&mut buf);
    let pp = ParsedPacket::new(buf).unwrap();
    assert_eq!(pp.qdcount(), 1);
    assert_eq!(pp.ancount(), 2);
    assert_eq!(pp.nscount(), 3);
    assert_eq!(pp.arcount(), 4);
}

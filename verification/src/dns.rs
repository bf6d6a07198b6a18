use vstd::prelude::*;

verus! {

use crate::addr::Ipv4;
use crate::addr::SockAddr;
use crate::addr::parse_ipv4;
use crate::addr::spec_parse_ipv4;
use crate::wire::append_range;
use crate::wire::read_u16_at;
use crate::wire::spec_read_u16;

/// Errors of the resolver. The closed set mirrors the ways one lookup can
/// fail: a malformed domain name or server address, a message that could
/// not be encoded or decoded, and the three socket-level failures (setup,
/// send, receive — the last includes the fixed receive timeout).
#[derive(Clone, Copy, PartialEq, Eq, Structural, Debug)]
pub enum DnsError {
    ParseDomainName,
    ParseDnsServerAddress,
    Encoding,
    Decoding,
    Network,
    Sending,
    Receiving,
}

/// A byte allowed inside a label of an ASCII hostname: a letter, a digit,
/// a hyphen or an underscore.
pub open spec fn allowed_name_byte(b: u8) -> bool {
    (97 <= b <= 122) || (65 <= b <= 90) || (48 <= b <= 57) || b == 45 || b == 95
}

/// The rest of a hostname read label by label, with `run` bytes of the
/// current label already behind: every byte is allowed, and every label
/// (dot-separated run) has 1 to 63 bytes.
pub open spec fn labels_ok_from(s: Seq<u8>, run: nat) -> bool
    decreases s.len(),
{
    if s.len() == 0 {
        1 <= run <= 63
    } else if s[0] == 46 {
        1 <= run <= 63 && labels_ok_from(s.skip(1), 0)
    } else {
        allowed_name_byte(s[0]) && labels_ok_from(s.skip(1), (run + 1) as nat)
    }
}

/// Valid ASCII hostname syntax: at most 253 bytes of dot-separated labels
/// of 1 to 63 bytes each, every byte a letter, digit, hyphen or underscore.
pub open spec fn is_valid_hostname(s: Seq<u8>) -> bool {
    s.len() <= 253 && labels_ok_from(s, 0)
}

fn labels_ok_exec(name: &Vec<u8>, i: usize, run: usize) -> (r: bool)
    requires
        i <= name@.len(),
        run <= i,
    ensures
        r == labels_ok_from(name@.skip(i as int), run as nat),
    decreases name@.len() - i,
{
    if i == name.len() {
        1 <= run && run <= 63
    } else {
        proof {
            assert(name@.skip(i as int)[0] == name@[i as int]);
            assert(name@.skip(i as int).skip(1) =~= name@.skip(i as int + 1));
        }
        let b = name[i];
        if b == 46 {
            if 1 <= run && run <= 63 {
                labels_ok_exec(name, i + 1, 0)
            } else {
                false
            }
        } else {
            let allowed = (97 <= b && b <= 122) || (65 <= b && b <= 90) || (48 <= b && b <= 57)
                || b == 45 || b == 95;
            if allowed {
                labels_ok_exec(name, i + 1, run + 1)
            } else {
                false
            }
        }
    }
}

/// Decide whether `name` is valid ASCII hostname syntax.
pub fn validate_hostname(name: &Vec<u8>) -> (r: bool)
    ensures
        r == is_valid_hostname(name@),
{
    if name.len() > 253 {
        return false;
    }
    proof {
        assert(name@.skip(0) =~= name@);
    }
    labels_ok_exec(name, 0, 0)
}

/// The length-prefixed label wire form of the name bytes `s`, with `cur`
/// the bytes of the label currently open.
pub open spec fn wire_labels(s: Seq<u8>, cur: Seq<u8>) -> Seq<u8>
    decreases s.len(),
{
    if s.len() == 0 {
        seq![cur.len() as u8] + cur
    } else if s[0] == 46 {
        seq![cur.len() as u8] + cur + wire_labels(s.skip(1), Seq::empty())
    } else {
        wire_labels(s.skip(1), cur.push(s[0]))
    }
}

/// The wire form of a domain name: its labels, each preceded by its length
/// octet, closed by the root label's zero octet.
pub open spec fn wire_name(s: Seq<u8>) -> Seq<u8> {
    wire_labels(s, Seq::empty()) + seq![0u8]
}

/// The 12 header octets of a query: the transaction id, a flags word with
/// only recursion-desired set, a question count of one, and zero answer,
/// authority and additional counts.
pub open spec fn query_header(id: u16) -> Seq<u8> {
    seq![(id >> 8) as u8, (id & 0xff) as u8, 1u8, 0u8, 0u8, 1u8, 0u8, 0u8, 0u8, 0u8, 0u8, 0u8]
}

/// The 4 octets closing the question: record type A (1), class IN (1).
pub open spec fn query_tail() -> Seq<u8> {
    seq![0u8, 1u8, 0u8, 1u8]
}

/// The full wire form of a single-question query for an address record.
pub open spec fn query_wire(id: u16, name: Seq<u8>) -> Seq<u8> {
    query_header(id) + wire_name(name) + query_tail()
}

fn emit_labels(domain: &Vec<u8>, i: usize, start: usize, out: &mut Vec<u8>)
    requires
        start <= i <= domain@.len(),
        labels_ok_from(domain@.skip(i as int), (i - start) as nat),
    ensures
        final(out)@ == old(out)@ + wire_labels(
            domain@.skip(i as int),
            domain@.subrange(start as int, i as int),
        ),
    decreases domain@.len() - i,
{
    let ghost cur = domain@.subrange(start as int, i as int);
    if i == domain.len() {
        assert(1 <= i - start <= 63);
        out.push((i - start) as u8);
        append_range(out, domain, start, i);
        proof {
            assert(out@ =~= old(out)@ + wire_labels(domain@.skip(i as int), cur));
        }
    } else {
        proof {
            assert(domain@.skip(i as int)[0] == domain@[i as int]);
            assert(domain@.skip(i as int).skip(1) =~= domain@.skip(i as int + 1));
        }
        let b = domain[i];
        if b == 46 {
            assert(1 <= i - start <= 63);
            out.push((i - start) as u8);
            append_range(out, domain, start, i);
            emit_labels(domain, i + 1, i + 1, out);
            proof {
                assert(domain@.subrange(i as int + 1, i as int + 1) =~= Seq::<u8>::empty());
                assert(out@ =~= old(out)@ + wire_labels(domain@.skip(i as int), cur));
            }
        } else {
            proof {
                assert(cur.push(domain@[i as int]) =~= domain@.subrange(
                    start as int,
                    i as int + 1,
                ));
            }
            emit_labels(domain, i + 1, start, out);
        }
    }
}

/// Encode a single-question query for an address record of `domain` with
/// transaction id `id`, recursion desired. A name that is not valid ASCII
/// hostname syntax is rejected; otherwise the buffer is exactly the wire
/// form of the query.
pub fn encode_query(id: u16, domain: &Vec<u8>) -> (r: Result<Vec<u8>, DnsError>)
    ensures
        is_valid_hostname(domain@) ==> (r matches Ok(v) && v@ == query_wire(id, domain@)),
        !is_valid_hostname(domain@) ==> r == Err::<Vec<u8>, DnsError>(DnsError::ParseDomainName),
        r is Ok <==> is_valid_hostname(domain@),
{
    if !validate_hostname(domain) {
        return Err(DnsError::ParseDomainName);
    }
    let mut out: Vec<u8> = Vec::new();
    out.push((id >> 8) as u8);
    out.push((id & 0xff) as u8);
    out.push(1u8);
    out.push(0u8);
    out.push(0u8);
    out.push(1u8);
    out.push(0u8);
    out.push(0u8);
    out.push(0u8);
    out.push(0u8);
    out.push(0u8);
    out.push(0u8);
    proof {
        assert(out@ =~= query_header(id));
        assert(domain@.skip(0) =~= domain@);
        assert(domain@.subrange(0, 0) =~= Seq::<u8>::empty());
    }
    emit_labels(domain, 0, 0, &mut out);
    out.push(0u8);
    out.push(0u8);
    out.push(1u8);
    out.push(0u8);
    out.push(1u8);
    proof {
        assert(out@ =~= query_wire(id, domain@));
    }
    Ok(out)
}

/// The position just past the name starting at `i`: labels are skipped by
/// their length octet, a zero octet ends the name, and a compression
/// pointer (two octets, top bits set) ends it as well. Anything else, or a
/// name running past the buffer, is malformed.
pub open spec fn spec_skip_name(buf: Seq<u8>, i: int) -> Option<int>
    decreases buf.len() - i,
{
    if i < 0 || i >= buf.len() {
        None
    } else if buf[i] == 0 {
        Some(i + 1)
    } else if buf[i] >= 192 {
        if i + 2 <= buf.len() {
            Some(i + 2)
        } else {
            None
        }
    } else if buf[i] < 64 {
        if i + 1 + (buf[i] as int) <= buf.len() {
            spec_skip_name(buf, i + 1 + (buf[i] as int))
        } else {
            None
        }
    } else {
        None
    }
}

proof fn lemma_skip_name_over_labels(buf: Seq<u8>, i: int, s: Seq<u8>, cur: Seq<u8>)
    requires
        0 <= i,
        i + wire_labels(s, cur).len() + 1 <= buf.len(),
        forall|k: int|
            0 <= k < wire_labels(s, cur).len() ==> buf[i + k] == wire_labels(s, cur)[k],
        buf[i + wire_labels(s, cur).len()] == 0,
        labels_ok_from(s, cur.len()),
    ensures
        spec_skip_name(buf, i) == Some(i + wire_labels(s, cur).len() + 1),
    decreases s.len(),
{
    if s.len() == 0 {
        assert(1 <= cur.len() <= 63);
        assert(buf[i + 0] == wire_labels(s, cur)[0]);
        assert(buf[i] == cur.len() as u8);
        let j = i + 1 + cur.len();
        assert(buf[j] == 0);
        assert(spec_skip_name(buf, j) == Some(j + 1));
    } else if s[0] == 46 {
        assert(1 <= cur.len() <= 63);
        assert(buf[i + 0] == wire_labels(s, cur)[0]);
        assert(buf[i] == cur.len() as u8);
        let head = seq![cur.len() as u8] + cur;
        let tail = wire_labels(s.skip(1), Seq::<u8>::empty());
        assert(wire_labels(s, cur) == head + tail);
        let j = i + 1 + cur.len();
        assert forall|k: int| 0 <= k < tail.len() implies buf[j + k] == tail[k] by {
            assert(buf[i + (head.len() + k)] == (head + tail)[head.len() + k]);
        }
        assert(Seq::<u8>::empty().len() == 0);
        lemma_skip_name_over_labels(buf, j, s.skip(1), Seq::<u8>::empty());
    } else {
        assert(wire_labels(s, cur) == wire_labels(s.skip(1), cur.push(s[0])));
        assert(labels_ok_from(s.skip(1), cur.push(s[0]).len()));
        lemma_skip_name_over_labels(buf, i, s.skip(1), cur.push(s[0]));
    }
}

/// The position just past `n` question entries starting at `i`: each is a
/// name followed by four octets of type and class.
pub open spec fn spec_skip_questions(buf: Seq<u8>, i: int, n: nat) -> Option<int>
    decreases n,
{
    if n == 0 {
        Some(i)
    } else {
        match spec_skip_name(buf, i) {
            Option::None => None,
            Option::Some(j) => if j + 4 <= buf.len() {
                spec_skip_questions(buf, j + 4, (n - 1) as nat)
            } else {
                None
            },
        }
    }
}

/// The first address record among the `n` answer records starting at `i`,
/// scanned in received order. Each record is a name, a type, a class, a
/// time to live and a length-prefixed payload. `None` is a malformed
/// section — including an address record whose payload is not four octets;
/// `Some(None)` a section without an address record; `Some(Some(ip))` the
/// first address record's payload.
pub open spec fn spec_scan_answers(buf: Seq<u8>, i: int, n: nat) -> Option<Option<Ipv4>>
    decreases n,
{
    if n == 0 {
        Some(None)
    } else {
        match spec_skip_name(buf, i) {
            Option::None => None,
            Option::Some(j) => if j + 10 > buf.len() {
                None
            } else {
                let rtype = spec_read_u16(buf, j);
                let rdlen = spec_read_u16(buf, j + 8);
                if j + 10 + rdlen > buf.len() {
                    None
                } else if rtype == 1 {
                    if rdlen == 4 {
                        Some(
                            Some(
                                Ipv4 {
                                    o0: buf[j + 10],
                                    o1: buf[j + 11],
                                    o2: buf[j + 12],
                                    o3: buf[j + 13],
                                },
                            ),
                        )
                    } else {
                        None
                    }
                } else {
                    spec_scan_answers(buf, j + 10 + rdlen, (n - 1) as nat)
                }
            },
        }
    }
}

/// The decoded result of a response datagram: `None` when the message is
/// malformed, otherwise the first address record of the answer section, if
/// any. The header's question count says how many question entries to
/// skip, its answer count how many records to scan.
pub open spec fn spec_parse_response(buf: Seq<u8>) -> Option<Option<Ipv4>> {
    if buf.len() < 12 {
        None
    } else {
        let qd = spec_read_u16(buf, 4);
        let an = spec_read_u16(buf, 6);
        match spec_skip_questions(buf, 12, qd as nat) {
            Option::None => None,
            Option::Some(i) => spec_scan_answers(buf, i, an as nat),
        }
    }
}

fn skip_name(buf: &Vec<u8>, i: usize) -> (r: Option<usize>)
    ensures
        r is Some <==> spec_skip_name(buf@, i as int) is Some,
        r matches Some(j) ==> spec_skip_name(buf@, i as int) == Some(j as int) && i < j <= buf@.len(),
    decreases buf@.len() - i,
{
    let n = buf.len();
    if i >= n {
        None
    } else {
        let b = buf[i];
        if b == 0 {
            Some(i + 1)
        } else if b >= 192 {
            if n - i >= 2 {
                Some(i + 2)
            } else {
                None
            }
        } else if b < 64 {
            if n - i - 1 >= (b as usize) {
                skip_name(buf, i + 1 + (b as usize))
            } else {
                None
            }
        } else {
            None
        }
    }
}

fn skip_questions(buf: &Vec<u8>, i: usize, n: u16) -> (r: Option<usize>)
    requires
        i <= buf@.len(),
    ensures
        r is Some <==> spec_skip_questions(buf@, i as int, n as nat) is Some,
        r matches Some(j) ==> spec_skip_questions(buf@, i as int, n as nat) == Some(j as int) && j
            <= buf@.len(),
    decreases n,
{
    if n == 0 {
        Some(i)
    } else {
        match skip_name(buf, i) {
            Option::None => None,
            Option::Some(j) => {
                let len = buf.len();
                if len - j >= 4 {
                    skip_questions(buf, j + 4, n - 1)
                } else {
                    None
                }
            },
        }
    }
}

fn scan_answers(buf: &Vec<u8>, i: usize, n: u16) -> (r: Option<Option<Ipv4>>)
    ensures
        r == spec_scan_answers(buf@, i as int, n as nat),
    decreases n,
{
    if n == 0 {
        Some(None)
    } else {
        match skip_name(buf, i) {
            Option::None => None,
            Option::Some(j) => {
                let len = buf.len();
                if len - j < 10 {
                    None
                } else {
                    let rtype = read_u16_at(buf, j);
                    let rdlen = read_u16_at(buf, j + 8);
                    if len - (j + 10) < (rdlen as usize) {
                        None
                    } else if rtype == 1 {
                        if rdlen == 4 {
                            Some(
                                Some(
                                    Ipv4 {
                                        o0: buf[j + 10],
                                        o1: buf[j + 11],
                                        o2: buf[j + 12],
                                        o3: buf[j + 13],
                                    },
                                ),
                            )
                        } else {
                            None
                        }
                    } else {
                        scan_answers(buf, j + 10 + (rdlen as usize), n - 1)
                    }
                }
            },
        }
    }
}

/// Decode a response datagram and extract the address of the first
/// address record of its answer section, in received order; a response
/// whose answer section holds no address record yields `Ok(None)`. A
/// malformed message fails with `Decoding`, and with nothing else.
pub fn parse_response(buf: &Vec<u8>) -> (r: Result<Option<Ipv4>, DnsError>)
    ensures
        r matches Ok(v) ==> spec_parse_response(buf@) == Some(v),
        r is Err <==> spec_parse_response(buf@) is None,
        r matches Err(e) ==> e == DnsError::Decoding,
{
    let n = buf.len();
    if n < 12 {
        return Err(DnsError::Decoding);
    }
    let qd = read_u16_at(buf, 4);
    let an = read_u16_at(buf, 6);
    match skip_questions(buf, 12, qd) {
        Option::None => Err(DnsError::Decoding),
        Option::Some(i) => match scan_answers(buf, i, an) {
            Option::None => Err(DnsError::Decoding),
            Option::Some(x) => Ok(x),
        },
    }
}

/// One answer record of a response fixture, in the abstract: its type and
/// its payload. On the wire its name is a compression pointer to the
/// question's name at the customary offset.
pub struct AnswerRecord {
    pub rtype: u16,
    pub payload: Seq<u8>,
}

/// A fixture record whose payload fits its two length octets, and whose
/// payload is exactly four octets if it is an address record.
pub open spec fn record_well_formed(r: AnswerRecord) -> bool {
    r.payload.len() < 65536 && (r.rtype == 1 ==> r.payload.len() == 4)
}

/// The wire form of one answer record: a pointer name, the type, class IN,
/// a time to live, and the length-prefixed payload.
pub open spec fn record_wire(r: AnswerRecord) -> Seq<u8> {
    seq![
        192u8,
        12u8,
        (r.rtype / 256) as u8,
        (r.rtype % 256) as u8,
        0u8,
        1u8,
        0u8,
        0u8,
        0u8,
        60u8,
        ((r.payload.len() as int) / 256) as u8,
        ((r.payload.len() as int) % 256) as u8,
    ] + r.payload
}

/// The wire form of an answer section: its records, one after the other.
pub open spec fn records_wire(rs: Seq<AnswerRecord>) -> Seq<u8>
    decreases rs.len(),
{
    if rs.len() == 0 {
        Seq::<u8>::empty()
    } else {
        record_wire(rs[0]) + records_wire(rs.skip(1))
    }
}

/// The wire form of a whole response to the query for `domain`: a header
/// announcing one question and `rs.len()` answers, the echoed question,
/// and the answer section.
pub open spec fn response_wire(id: u16, domain: Seq<u8>, rs: Seq<AnswerRecord>) -> Seq<u8> {
    seq![
        (id >> 8) as u8,
        (id & 0xff) as u8,
        129u8,
        128u8,
        0u8,
        1u8,
        ((rs.len() as int) / 256) as u8,
        ((rs.len() as int) % 256) as u8,
        0u8,
        0u8,
        0u8,
        0u8,
    ] + wire_name(domain) + query_tail() + records_wire(rs)
}

/// The address of the first address record of `rs`, in order, if any.
pub open spec fn first_address(rs: Seq<AnswerRecord>) -> Option<Ipv4>
    decreases rs.len(),
{
    if rs.len() == 0 {
        None
    } else if rs[0].rtype == 1 {
        Some(
            Ipv4 {
                o0: rs[0].payload[0],
                o1: rs[0].payload[1],
                o2: rs[0].payload[2],
                o3: rs[0].payload[3],
            },
        )
    } else {
        first_address(rs.skip(1))
    }
}

proof fn lemma_scan_records(buf: Seq<u8>, i: int, rs: Seq<AnswerRecord>)
    requires
        0 <= i,
        i + records_wire(rs).len() <= buf.len(),
        forall|k: int| 0 <= k < records_wire(rs).len() ==> buf[i + k] == records_wire(rs)[k],
        forall|k: int| 0 <= k < rs.len() ==> record_well_formed(#[trigger] rs[k]),
    ensures
        spec_scan_answers(buf, i, rs.len() as nat) == Some(first_address(rs)),
    decreases rs.len(),
{
    if rs.len() == 0 {
    } else {
        let r0 = rs[0];
        assert(record_well_formed(rs[0]));
        let rw = record_wire(r0);
        let rest = records_wire(rs.skip(1));
        assert(records_wire(rs) == rw + rest);
        assert(rw.len() == 12 + r0.payload.len());
        assert forall|k: int| 0 <= k < rw.len() implies buf[i + k] == rw[k] by {
            assert(buf[i + k] == (rw + rest)[k]);
        }
        let ghost front = seq![
            192u8,
            12u8,
            (r0.rtype / 256) as u8,
            (r0.rtype % 256) as u8,
            0u8,
            1u8,
            0u8,
            0u8,
            0u8,
            60u8,
            ((r0.payload.len() as int) / 256) as u8,
            ((r0.payload.len() as int) % 256) as u8,
        ];
        assert(rw == front + r0.payload);
        assert(rw[0] == front[0] && rw[2] == front[2] && rw[3] == front[3] && rw[10] == front[10]
            && rw[11] == front[11]);
        assert(buf[i + 0] == rw[0]);
        assert(buf[i + 0] == 192);
        assert(spec_skip_name(buf, i) == Some(i + 2));
        assert(buf[i + 2] == rw[2] && buf[i + 3] == rw[3]);
        assert(buf[i + 2] == (r0.rtype / 256) as u8);
        assert(buf[i + 3] == (r0.rtype % 256) as u8);
        assert(spec_read_u16(buf, i + 2) == r0.rtype);
        assert(buf[i + 10] == rw[10] && buf[i + 11] == rw[11]);
        assert(buf[i + 10] == ((r0.payload.len() as int) / 256) as u8);
        assert(buf[i + 11] == ((r0.payload.len() as int) % 256) as u8);
        assert(spec_read_u16(buf, i + 10) == r0.payload.len());
        if r0.rtype == 1 {
            assert(r0.payload.len() == 4);
            assert(buf[i + 12] == rw[12] && rw[12] == r0.payload[0]);
            assert(buf[i + 13] == rw[13] && rw[13] == r0.payload[1]);
            assert(buf[i + 14] == rw[14] && rw[14] == r0.payload[2]);
            assert(buf[i + 15] == rw[15] && rw[15] == r0.payload[3]);
        } else {
            let i2 = i + rw.len();
            assert forall|k: int| 0 <= k < rest.len() implies buf[i2 + k] == rest[k] by {
                assert(buf[i + (rw.len() + k)] == (rw + rest)[rw.len() + k]);
            }
            assert forall|k: int| 0 <= k < rs.skip(1).len() implies record_well_formed(
                #[trigger] rs.skip(1)[k],
            ) by {
                assert(rs.skip(1)[k] == rs[k + 1]);
                assert(record_well_formed(rs[k + 1]));
            }
            lemma_scan_records(buf, i2, rs.skip(1));
        }
    }
}

/// For any response fixture over a valid domain — any transaction id, any
/// sequence of well-formed answer records — decoding yields exactly the
/// address of the first address record of the answer section, scanned in
/// order, and yields no address when the section holds no address record.
pub proof fn lemma_decode_finds_first_address(id: u16, domain: Seq<u8>, rs: Seq<AnswerRecord>)
    requires
        is_valid_hostname(domain),
        rs.len() < 65536,
        forall|k: int| 0 <= k < rs.len() ==> record_well_formed(#[trigger] rs[k]),
    ensures
        spec_parse_response(response_wire(id, domain, rs)) == Some(first_address(rs)),
{
    let buf = response_wire(id, domain, rs);
    let header = seq![
        (id >> 8) as u8,
        (id & 0xff) as u8,
        129u8,
        128u8,
        0u8,
        1u8,
        ((rs.len() as int) / 256) as u8,
        ((rs.len() as int) % 256) as u8,
        0u8,
        0u8,
        0u8,
        0u8,
    ];
    let name = wire_name(domain);
    let wl = wire_labels(domain, Seq::<u8>::empty());
    let records = records_wire(rs);
    assert(buf == header + name + query_tail() + records);
    assert(buf.len() == 12 + name.len() + 4 + records.len());
    assert(buf[4] == 0 && buf[5] == 1);
    assert(spec_read_u16(buf, 4) == 1);
    assert(buf[6] == ((rs.len() as int) / 256) as u8);
    assert(buf[7] == ((rs.len() as int) % 256) as u8);
    assert(spec_read_u16(buf, 6) == rs.len());
    assert forall|k: int| 0 <= k < wl.len() implies buf[12 + k] == wl[k] by {
        assert(buf[12 + k] == name[k]);
        assert(name[k] == (wl + seq![0u8])[k]);
    }
    assert(buf[12 + wl.len() as int] == name[wl.len() as int]);
    assert(buf[12 + wl.len() as int] == 0);
    lemma_skip_name_over_labels(buf, 12, domain, Seq::<u8>::empty());
    assert(spec_skip_name(buf, 12) == Some(12 + name.len() as int));
    let q: int = 12 + name.len() as int + 4;
    assert(spec_skip_questions(buf, q, 0nat) == Some(q));
    assert(spec_skip_questions(buf, 12, 1nat) == Some(q));
    assert forall|k: int| 0 <= k < records.len() implies buf[q + k] == records[k] by {
        assert(buf[(12 + name.len()) + (4 + k)] == (query_tail() + records)[4 + k]);
    }
    lemma_scan_records(buf, q, rs);
}

proof fn lemma_first_address_at(rs: Seq<AnswerRecord>, k: int)
    requires
        0 <= k < rs.len(),
        rs[k].rtype == 1,
        forall|j: int| 0 <= j < k ==> rs[j].rtype != 1,
    ensures
        first_address(rs) == Some(
            Ipv4 {
                o0: rs[k].payload[0],
                o1: rs[k].payload[1],
                o2: rs[k].payload[2],
                o3: rs[k].payload[3],
            },
        ),
    decreases k,
{
    if k > 0 {
        assert(rs[0].rtype != 1);
        assert forall|j: int| 0 <= j < k - 1 implies rs.skip(1)[j].rtype != 1 by {
            assert(rs.skip(1)[j] == rs[j + 1]);
        }
        assert(rs.skip(1)[k - 1] == rs[k]);
        lemma_first_address_at(rs.skip(1), k - 1);
    }
}

proof fn lemma_first_address_none(rs: Seq<AnswerRecord>)
    requires
        forall|j: int| 0 <= j < rs.len() ==> rs[j].rtype != 1,
    ensures
        first_address(rs) is None,
    decreases rs.len(),
{
    if rs.len() > 0 {
        assert forall|j: int| 0 <= j < rs.skip(1).len() implies rs.skip(1)[j].rtype != 1 by {
            assert(rs.skip(1)[j] == rs[j + 1]);
        }
        lemma_first_address_none(rs.skip(1));
    }
}

/// For any fixture whose answer section holds exactly one address record —
/// at index `k`, every other record of another type — decoding returns
/// precisely that record's address.
pub proof fn lemma_single_address_record_is_found(
    id: u16,
    domain: Seq<u8>,
    rs: Seq<AnswerRecord>,
    k: int,
)
    requires
        is_valid_hostname(domain),
        rs.len() < 65536,
        forall|j: int| 0 <= j < rs.len() ==> record_well_formed(#[trigger] rs[j]),
        0 <= k < rs.len(),
        rs[k].rtype == 1,
        forall|j: int| 0 <= j < rs.len() && j != k ==> rs[j].rtype != 1,
    ensures
        spec_parse_response(response_wire(id, domain, rs)) == Some(
            Some(
                Ipv4 {
                    o0: rs[k].payload[0],
                    o1: rs[k].payload[1],
                    o2: rs[k].payload[2],
                    o3: rs[k].payload[3],
                },
            ),
        ),
{
    lemma_decode_finds_first_address(id, domain, rs);
    lemma_first_address_at(rs, k);
}

/// For any fixture whose answer section holds no address record at all —
/// only records of other types — decoding succeeds and returns no
/// address.
pub proof fn lemma_no_address_record_yields_none(id: u16, domain: Seq<u8>, rs: Seq<AnswerRecord>)
    requires
        is_valid_hostname(domain),
        rs.len() < 65536,
        forall|j: int| 0 <= j < rs.len() ==> record_well_formed(#[trigger] rs[j]),
        forall|j: int| 0 <= j < rs.len() ==> rs[j].rtype != 1,
    ensures
        spec_parse_response(response_wire(id, domain, rs)) == Some(None::<Ipv4>),
{
    lemma_decode_finds_first_address(id, domain, rs);
    lemma_first_address_none(rs);
}

/// Generate a transaction id for one query: never zero, since zero is
/// reserved and treated as invalid. A zero draw is re-rolled; after a
/// bounded number of re-rolls (each failing with probability 1 in 65536)
/// the smallest valid id is used, so the call always terminates.
pub fn message_id() -> (r: u16)
    ensures
        r != 0,
{
    let mut tries: usize = 0;
    while tries < 1000
        invariant
            tries <= 1000,
        decreases 1000 - tries,
    {
        let candidate: u16 = rand::random();
        if candidate != 0 {
            return candidate;
        }
        tries = tries + 1;
    }
    1
}

/// The well-known server port that every query is sent to.
pub const DNS_PORT: u16 = 53;

/// Parse the server address given to a lookup: an IPv4 dotted-quad
/// literal, no port. The queried endpoint is that address at the
/// well-known port; anything else fails with `ParseDnsServerAddress`.
pub fn parse_server_address(s: &Vec<u8>) -> (r: Result<SockAddr, DnsError>)
    ensures
        r is Ok <==> spec_parse_ipv4(s@) is Some,
        r matches Ok(a) ==> spec_parse_ipv4(s@) == Some(a.ip) && a.port == 53,
        r matches Err(e) ==> e == DnsError::ParseDnsServerAddress,
{
    match parse_ipv4(s) {
        Option::Some(ip) => Ok(SockAddr { ip, port: DNS_PORT }),
        Option::None => Err(DnsError::ParseDnsServerAddress),
    }
}

/// One datagram as it arrived: its source endpoint and its payload.
pub struct Datagram {
    pub source: SockAddr,
    pub payload: Vec<u8>,
}

/// Whether a received datagram may conclude the wait: only one whose
/// source equals the queried server's endpoint is accepted; any other
/// arrival is discarded and the wait goes on.
pub fn accept_datagram(server: &SockAddr, source: &SockAddr) -> (r: bool)
    ensures
        r == (source == server),
{
    source == server
}

/// The receive wait over a sequence of arrivals, as a pure function: the
/// index of the first datagram whose source is the queried server. Every
/// arrival before it comes from another source and is discarded without
/// ending the wait; when no arrival matches, nothing is selected and the
/// wait can only end by timeout.
pub fn select_datagram(server: &SockAddr, arrivals: &Vec<Datagram>) -> (r: Option<usize>)
    ensures
        r matches Some(k) ==> k < arrivals@.len() && arrivals@[k as int].source == *server
            && forall|j: int| 0 <= j < k ==> arrivals@[j].source != *server,
        r is None ==> forall|j: int| 0 <= j < arrivals@.len() ==> arrivals@[j].source != *server,
{
    let mut k: usize = 0;
    while k < arrivals.len()
        invariant
            k <= arrivals@.len(),
            forall|j: int| 0 <= j < k ==> arrivals@[j].source != *server,
        decreases arrivals@.len() - k,
    {
        if accept_datagram(server, &arrivals[k].source) {
            return Some(k);
        }
        k = k + 1;
    }
    None
}

/// What decoding a matching datagram yields for the whole lookup: the
/// first address record's address, no address, or the decode failure.
pub open spec fn decode_result(buf: Seq<u8>) -> Result<Option<Ipv4>, DnsError> {
    match spec_parse_response(buf) {
        Option::Some(x) => Ok(x),
        Option::None => Err(DnsError::Decoding),
    }
}

/// One address-record lookup with its datagram I/O replayed from a
/// recorded sequence of arrivals. A malformed domain name or server
/// address fails before any datagram is looked at, in that order; then
/// the arrivals are waited through, every datagram from a source other
/// than the queried server (the given address at the well-known port)
/// discarded, and the first matching one decoded. No matching arrival is
/// the receive timeout.
pub fn resolve(server_text: &Vec<u8>, domain: &Vec<u8>, arrivals: &Vec<Datagram>) -> (r: Result<
    Option<Ipv4>,
    DnsError,
>)
    ensures
        !is_valid_hostname(domain@) ==> r == Err::<Option<Ipv4>, DnsError>(
            DnsError::ParseDomainName,
        ),
        is_valid_hostname(domain@) && spec_parse_ipv4(server_text@) is None ==> r == Err::<
            Option<Ipv4>,
            DnsError,
        >(DnsError::ParseDnsServerAddress),
        is_valid_hostname(domain@) && spec_parse_ipv4(server_text@) is Some ==> {
            let server = SockAddr { ip: spec_parse_ipv4(server_text@).unwrap(), port: 53 };
            &&& (forall|j: int| 0 <= j < arrivals@.len() ==> arrivals@[j].source != server) ==> r
                == Err::<Option<Ipv4>, DnsError>(DnsError::Receiving)
            &&& forall|k: int|
                0 <= k < arrivals@.len() && arrivals@[k].source == server && (forall|j: int|
                    0 <= j < k ==> arrivals@[j].source != server) ==> r == decode_result(
                    arrivals@[k].payload@,
                )
        },
{
    if !validate_hostname(domain) {
        return Err(DnsError::ParseDomainName);
    }
    let server = match parse_server_address(server_text) {
        Ok(a) => a,
        Err(e) => {
            return Err(e);
        },
    };
    match select_datagram(&server, arrivals) {
        Option::Some(k) => parse_response(&arrivals[k].payload),
        Option::None => Err(DnsError::Receiving),
    }
}

} // verus!
